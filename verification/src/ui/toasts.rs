//! Notices in a corner of the window.

use vstd::prelude::*;

verus! {

/// How far work is, as the bits of a floating-point number; zero is zero.
pub type ProgressBits = u32;

/// A notice of work that goes on.
#[derive(Debug)]
pub struct ProgressToastState {
    pub title: String,
    /// How far the work is, where that is known.
    pub progress: Option<ProgressBits>,
    pub message: String,
    pub dismissed: bool,
    pub error: Option<String>,
}

/// What a notice says.
#[derive(Debug)]
pub enum ToastText {
    Error(String),
    Message(String),
}

/// How many characters of a message are shown at most.
pub const MESSAGE_LIMIT: usize = 50;

/// How many characters of a longer message are shown.
pub const MESSAGE_TAIL: usize = 47;

/// A message as it is shown: the end of a long one.
pub open spec fn shortened(message: Seq<char>) -> Seq<char> {
    if message.len() > MESSAGE_LIMIT {
        "..."@ + message.skip(message.len() - MESSAGE_TAIL)
    } else {
        message
    }
}

/// A message as it is shown: the end of a long one.
pub fn shorten(message: &String) -> (r: String)
    ensures
        r@ == shortened(message@),
{
    let n: usize = message.as_str().unicode_len();
    if n > MESSAGE_LIMIT {
        let mut r = String::from_str("...");
        let tail = message.as_str().substring_char(n - MESSAGE_TAIL, n);
        assert(tail@ =~= message@.skip(n - MESSAGE_TAIL));
        r.append(tail);
        r
    } else {
        message.clone()
    }
}

/// A message that is shown is never longer than the limit.
pub proof fn shown_messages_are_short(message: Seq<char>)
    ensures
        shortened(message).len() <= MESSAGE_LIMIT,
{
    reveal_strlit("...");
}

impl Default for ProgressToastState {
    fn default() -> (r: Self)
        ensures
            r.title@ == "Loading"@,
            r.progress == Some(0u32),
            r.message@ == Seq::<char>::empty(),
            !r.dismissed,
            r.error is None,
    {
        ProgressToastState {
            title: String::from_str("Loading"),
            progress: Some(0),
            message: String::new(),
            dismissed: false,
            error: None,
        }
    }
}

impl ProgressToastState {
    /// A notice of work that begins.
    pub fn new(title: String, message: String) -> (r: Self)
        ensures
            r == (ProgressToastState {
                title,
                progress: Some(0),
                message,
                dismissed: false,
                error: None,
            }),
    {
        ProgressToastState { title, progress: Some(0), message, dismissed: false, error: None }
    }

    /// Decides whether the notice is no longer shown.
    pub fn should_remove(&self) -> (r: bool)
        ensures
            r == self.dismissed,
    {
        self.dismissed
    }

    /// Says how far the work is.
    pub fn update(&mut self, progress: ProgressBits, message: String)
        ensures
            *final(self) == (ProgressToastState {
                progress: Some(progress),
                message,
                ..*old(self)
            }),
    {
        self.progress = Some(progress);
        self.message = message;
    }

    pub fn set_title(&mut self, title: String)
        ensures
            *final(self) == (ProgressToastState { title, ..*old(self) }),
    {
        self.title = title;
    }

    /// Tells of an error.
    pub fn set_error(&mut self, error: String)
        ensures
            *final(self) == (ProgressToastState { error: Some(error), ..*old(self) }),
    {
        self.error = Some(error);
    }

    /// Takes the notice away.
    pub fn dismiss(&mut self)
        ensures
            *final(self) == (ProgressToastState { dismissed: true, ..*old(self) }),
    {
        self.dismissed = true;
    }

    /// What the notice says: the error, if there is one, else the message.
    pub fn text(&self) -> (r: ToastText)
        ensures
            match self.error {
                Some(e) => r == ToastText::Error(e),
                None => r matches ToastText::Message(m) && m@ == shortened(self.message@),
            },
    {
        match &self.error {
            Some(e) => ToastText::Error(e.clone()),
            None => ToastText::Message(shorten(&self.message)),
        }
    }
}

/// Notices that wait to be shown.
#[derive(Debug)]
pub struct ToastQueue {
    pub errors: Vec<String>,
    pub successes: Vec<String>,
}

impl ToastQueue {
    pub fn new() -> (r: Self)
        ensures
            r.errors@ == Seq::<String>::empty(),
            r.successes@ == Seq::<String>::empty(),
    {
        ToastQueue { errors: Vec::new(), successes: Vec::new() }
    }

    /// Adds an error, which stays until the user has seen it.
    pub fn send(&mut self, message: String)
        ensures
            final(self).errors@ == old(self).errors@.push(message),
            final(self).successes == old(self).successes,
    {
        self.errors.push(message);
    }

    /// Adds a success, which is shown for a while.
    pub fn send_success(&mut self, message: String)
        ensures
            final(self).successes@ == old(self).successes@.push(message),
            final(self).errors == old(self).errors,
    {
        self.successes.push(message);
    }

    /// Takes all notices out, to be shown: the errors first.
    pub fn drain(&mut self) -> (r: (Vec<String>, Vec<String>))
        ensures
            r.0@ == old(self).errors@,
            r.1@ == old(self).successes@,
            final(self).errors@ == Seq::<String>::empty(),
            final(self).successes@ == Seq::<String>::empty(),
    {
        let mut errors: Vec<String> = Vec::new();
        let mut successes: Vec<String> = Vec::new();
        errors.append(&mut self.errors);
        successes.append(&mut self.successes);
        assert(errors@ =~= old(self).errors@);
        assert(successes@ =~= old(self).successes@);
        (errors, successes)
    }
}

/// A message of at most 50 characters is shown as it is. Of a longer one the last 47
/// characters are shown, behind three dots.
pub proof fn long_messages_show_their_end(message: Seq<char>, i: int)
    ensures
        message.len() <= 50 ==> shortened(message) == message,
        message.len() > 50 ==> {
            &&& shortened(message).len() == 50
            &&& shortened(message)[0] == '.' && shortened(message)[1] == '.' && shortened(
                message,
            )[2] == '.'
            &&& 0 <= i < 47 ==> shortened(message)[3 + i] == message[message.len() - 47 + i]
        },
{
    reveal_strlit("...");
}

} // verus!
