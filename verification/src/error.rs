//! A structured error for a command-line process.
//!
//! An [`Error`] carries the exit status the process should end with, an
//! optional root message, and a stack of context frames pushed on as the
//! error travels up the call stack (most recently added last). Rendering
//! turns the stack into an indented listing: the most recently added frame
//! first, each older frame two spaces deeper, and the root message deepest
//! of all. An error whose message was never set renders as empty text, even
//! when context frames are present; only its status is meaningful then.

use vstd::prelude::*;

verus! {

/// The mathematical model of an [`Error`].
pub struct ErrorModel {
    /// The exit status code.
    pub status: int,
    /// The root message, if one was set.
    pub message: Option<Seq<char>>,
    /// The context frames, most recently added last.
    pub context: Seq<Seq<char>>,
}

/// An error carrying an exit status, an optional message, and context frames.
#[derive(Debug, Clone)]
pub struct Error {
    /// The exit status code.
    status: i32,
    /// The root message, if one was set.
    message: Option<String>,
    /// The context frames, most recently added last.
    context: Vec<String>,
}

impl View for Error {
    type V = ErrorModel;

    closed spec fn view(&self) -> ErrorModel {
        ErrorModel {
            status: self.status as int,
            message: match self.message {
                Some(m) => Some(m@),
                None => None,
            },
            context: self.context@.map_values(|s: String| s@),
        }
    }
}

/// A run of `n` spaces.
pub open spec fn spaces(n: nat) -> Seq<char>
    decreases n,
{
    if n == 0 {
        Seq::empty()
    } else {
        spaces((n - 1) as nat) + " "@
    }
}

/// The rendering of context frames, most recently added first, starting at
/// the given indentation depth and indenting one level more per frame.
pub open spec fn rendered_frames(context: Seq<Seq<char>>, depth: nat) -> Seq<char>
    decreases context.len(),
{
    if context.len() == 0 {
        Seq::empty()
    } else {
        spaces(2 * depth) + context.last() + "\n"@ + rendered_frames(
            context.drop_last(),
            depth + 1,
        )
    }
}

/// The text an error prints before the process exits: nothing without a root
/// message; otherwise the context frames from most recent to oldest, each two
/// spaces deeper, with the root message deepest of all.
pub open spec fn rendered(e: ErrorModel) -> Seq<char> {
    match e.message {
        None => Seq::empty(),
        Some(m) => rendered_frames(e.context, 0) + spaces(2 * e.context.len()) + m + "\n"@,
    }
}

impl Error {
    /// Creates a bare error carrying only an exit status.
    pub fn new(status: i32) -> (r: Error)
        ensures
            r@.status == status as int,
            r@.message is None,
            r@.context == Seq::<Seq<char>>::empty(),
    {
        let r = Error { status, message: None, context: Vec::new() };
        proof {
            assert(r@.context =~= Seq::<Seq<char>>::empty());
        }
        r
    }

    /// Sets (or replaces) the root message, returning the updated error.
    pub fn with_message(self, message: String) -> (r: Error)
        ensures
            r@.status == self@.status,
            r@.message == Some(message@),
            r@.context == self@.context,
    {
        Error { message: Some(message), ..self }
    }

    /// Pushes one context frame onto the stack, returning the updated error.
    pub fn with_context(self, message: String) -> (r: Error)
        ensures
            r@.status == self@.status,
            r@.message == self@.message,
            r@.context == self@.context.push(message@),
    {
        let mut context = self.context;
        context.push(message);
        let r = Error { context, ..self };
        proof {
            assert(r@.context =~= self@.context.push(message@));
        }
        r
    }

    /// Builds an error from a rendered I/O failure: the OS-reported error
    /// code where one exists (1 otherwise) and the failure's own text.
    pub fn from_io(code: Option<i32>, text: String) -> (r: Error)
        ensures
            r@.status == match code {
                Some(c) => c as int,
                None => 1,
            },
            r@.message == Some(text@),
            r@.context == Seq::<Seq<char>>::empty(),
    {
        let status = match code {
            Some(c) => c,
            None => 1,
        };
        Error::new(status).with_message(text)
    }

    /// Returns the exit status code.
    pub fn status(&self) -> (r: i32)
        ensures
            r as int == self@.status,
    {
        self.status
    }

    /// Returns the root message, if one was set.
    pub fn message(&self) -> (r: &Option<String>)
        ensures
            self@.message == match r {
                Some(m) => Some(m@),
                None => None::<Seq<char>>,
            },
    {
        &self.message
    }

    /// Returns the context frames, most recently added last.
    pub fn context(&self) -> (r: &Vec<String>)
        ensures
            self@.context == r@.map_values(|s: String| s@),
    {
        &self.context
    }

    /// Renders the error exactly as it is printed before the process exits.
    pub fn render(&self) -> (r: String)
        ensures
            r@ == rendered(self@),
    {
        let message = match &self.message {
            None => {
                let r = String::new();
                proof {
                    assert(r@ =~= rendered(self@));
                }
                return r;
            },
            Some(m) => m,
        };
        let mut out = String::new();
        let len = self.context.len();
        let mut j: usize = len;
        proof {
            assert(self@.context.subrange(0, len as int) =~= self@.context);
            assert(out@ + rendered_frames(self@.context, 0) =~= rendered_frames(
                self@.context,
                0,
            ));
        }
        while j > 0
            invariant
                j <= len,
                len == self.context.len(),
                self@.context == self.context@.map_values(|s: String| s@),
                out@ + rendered_frames(self@.context.subrange(0, j as int), (len - j) as nat)
                    == rendered_frames(self@.context, 0),
            decreases j,
        {
            let indent = indentation(len - j);
            out.append(indent.as_str());
            out.append(self.context[j - 1].as_str());
            out.append("\n");
            proof {
                let ctx = self@.context;
                let sub = ctx.subrange(0, j as int);
                assert(sub.last() == ctx[j - 1]);
                assert(sub.drop_last() =~= ctx.subrange(0, j - 1));
            }
            j = j - 1;
        }
        proof {
            assert(self@.context.subrange(0, 0) =~= Seq::<Seq<char>>::empty());
        }
        let indent = indentation(len);
        out.append(indent.as_str());
        out.append(message.as_str());
        out.append("\n");
        out
    }
}

/// Builds the indentation for one depth level: two spaces per level.
pub fn indentation(depth: usize) -> (r: String)
    ensures
        r@ == spaces(2 * depth as nat),
{
    let mut out = String::new();
    let mut i: usize = 0;
    while i < depth
        invariant
            i <= depth,
            out@ == spaces(2 * i as nat),
        decreases depth - i,
    {
        out.append("  ");
        proof {
            lemma_two_spaces(i as nat);
        }
        i = i + 1;
    }
    out
}

/// Two more spaces extend a run of spaces by one indentation level.
proof fn lemma_two_spaces(i: nat)
    ensures
        spaces(2 * i) + "  "@ == spaces(2 * (i + 1)),
{
    reveal_strlit(" ");
    reveal_strlit("  ");
    assert(spaces(2 * i + 1) == spaces(2 * i) + " "@);
    assert(spaces(2 * i + 2) == spaces(2 * i + 1) + " "@);
    assert(spaces(2 * i) + "  "@ =~= spaces(2 * i) + " "@ + " "@);
}

/// Wraps the error branch of a result in one more context frame; a success
/// passes through untouched.
pub fn with_context<T>(r: Result<T, Error>, message: String) -> (out: Result<T, Error>)
    ensures
        match r {
            Ok(v) => out == Ok::<T, Error>(v),
            Err(e) => match out {
                Err(oe) => oe@.status == e@.status && oe@.message == e@.message && oe@.context
                    == e@.context.push(message@),
                Ok(_) => false,
            },
        },
{
    match r {
        Ok(v) => Ok(v),
        Err(e) => Err(e.with_context(message)),
    }
}

} // verus!
