//! The decision half of the subprocess runner.
//!
//! An invocation is an immutable value: a program name and the argument
//! vector it will receive, never shell-interpreted. The library decides
//! everything about an invocation that does not need a live process: the
//! memoized search-path check, the error owed when the program is missing,
//! and what a finished process's captured status and bytes come to. The
//! spawning itself, and the live relaying of a child's output, happen
//! outside the library and hand their results back in.

use vstd::prelude::*;

verus! {

use vstd::utf8::valid_utf8;
use vstd::utf8::decode_utf8;
use crate::error::Error;
use crate::template::distinct_keys;
use crate::template::map_of;
use crate::template::lemma_map_of_contains;
use crate::template::lemma_map_of_index;
use crate::text::str_eq;

/// The mathematical model of a [`Run`].
pub struct RunModel {
    /// The program to invoke.
    pub program: Seq<char>,
    /// The arguments, in order.
    pub arguments: Seq<Seq<char>>,
}

/// One external invocation being built: a program name and its arguments.
#[derive(Debug)]
pub struct Run {
    /// The program to invoke.
    program: String,
    /// The arguments, in order.
    arguments: Vec<String>,
}

impl View for Run {
    type V = RunModel;

    closed spec fn view(&self) -> RunModel {
        RunModel { program: self.program@, arguments: self.arguments@.map_values(|s: String| s@) }
    }
}

impl Run {
    /// Creates a new invocation of the named program, with no arguments.
    pub fn new(name: &str) -> (r: Run)
        ensures
            r@.program == name@,
            r@.arguments == Seq::<Seq<char>>::empty(),
    {
        let r = Run { program: String::from_str(name), arguments: Vec::new() };
        proof {
            assert(r@.arguments =~= Seq::<Seq<char>>::empty());
        }
        r
    }

    /// Appends one argument, preserving order.
    pub fn arg(self, arg: &str) -> (r: Run)
        ensures
            r@.program == self@.program,
            r@.arguments == self@.arguments.push(arg@),
    {
        let mut arguments = self.arguments;
        let ghost pre = arguments@.map_values(|s: String| s@);
        arguments.push(String::from_str(arg));
        proof {
            assert(arguments@.map_values(|s: String| s@) =~= pre.push(arg@));
        }
        Run { program: self.program, arguments }
    }

    /// Returns the program name.
    pub fn program(&self) -> (r: &str)
        ensures
            r@ == self@.program,
    {
        self.program.as_str()
    }

    /// Returns the arguments added so far.
    pub fn get_args(&self) -> (r: &Vec<String>)
        ensures
            r@.map_values(|s: String| s@) == self@.arguments,
    {
        &self.arguments
    }

    /// Appends `--profile <name>` when a profile override is present, then
    /// `--region <name>` when a region override is present, and nothing
    /// else, so an AWS CLI call inherits the overrides given to this
    /// process.
    pub fn with_aws_options(self, profile: &Option<String>, region: &Option<String>) -> (r: Run)
        ensures
            r@.program == self@.program,
            r@.arguments == self@.arguments + (match profile {
                Some(p) => seq!["--profile"@, p@],
                None => Seq::<Seq<char>>::empty(),
            }) + (match region {
                Some(g) => seq!["--region"@, g@],
                None => Seq::<Seq<char>>::empty(),
            }),
    {
        let ghost base = self@.arguments;
        let mut run = self;
        match profile {
            Some(p) => {
                run = run.arg("--profile").arg(p.as_str());
                proof {
                    assert(run@.arguments =~= base + seq!["--profile"@, p@]);
                }
            },
            None => {
                proof {
                    assert(run@.arguments =~= base + Seq::<Seq<char>>::empty());
                }
            },
        }
        let ghost mid = run@.arguments;
        match region {
            Some(g) => {
                run = run.arg("--region").arg(g.as_str());
                proof {
                    assert(run@.arguments =~= mid + seq!["--region"@, g@]);
                }
            },
            None => {
                proof {
                    assert(run@.arguments =~= mid + Seq::<Seq<char>>::empty());
                }
            },
        }
        run
    }
}

/// The memoized answers to "is this program on the search path?", owned by
/// whoever runs invocations and handed in explicitly, so tests can seed or
/// reset it.
#[derive(Debug)]
pub struct PathCache {
    /// One answer per program asked about.
    entries: Vec<(String, bool)>,
}

impl View for PathCache {
    type V = Seq<(Seq<char>, bool)>;

    closed spec fn view(&self) -> Seq<(Seq<char>, bool)> {
        self.entries@.map_values(|p: (String, bool)| (p.0@, p.1))
    }
}

impl PathCache {
    /// The cache as the map from program names to answers.
    pub open spec fn cmap(&self) -> Map<Seq<char>, bool> {
        map_of(self@)
    }

    /// Holds when no program is cached twice.
    pub open spec fn wf(&self) -> bool {
        distinct_keys(self@)
    }

    /// Creates an empty cache.
    pub fn new() -> (r: PathCache)
        ensures
            r@ == Seq::<(Seq<char>, bool)>::empty(),
            r.wf(),
    {
        let r = PathCache { entries: Vec::new() };
        proof {
            assert(r@ =~= Seq::<(Seq<char>, bool)>::empty());
        }
        r
    }

    /// Returns the cached answer for a program, if one is present.
    pub fn lookup(&self, program: &str) -> (r: Option<bool>)
        requires
            self.wf(),
        ensures
            match r {
                Some(b) => self.cmap().contains_key(program@) && self.cmap()[program@] == b,
                None => !self.cmap().contains_key(program@),
            },
    {
        let n = self.entries.len();
        let mut i: usize = 0;
        while i < n
            invariant
                i <= n,
                n == self.entries.len(),
                self.wf(),
                self@ == self.entries@.map_values(|p: (String, bool)| (p.0@, p.1)),
                forall|k: int| 0 <= k < i ==> (#[trigger] self@[k]).0 != program@,
            decreases n - i,
        {
            if str_eq(self.entries[i].0.as_str(), program) {
                proof {
                    lemma_map_of_index(self@, i as int);
                }
                return Some(self.entries[i].1);
            }
            i = i + 1;
        }
        proof {
            lemma_map_of_contains(self@, program@);
        }
        None
    }

    /// Caches an answer for a program not asked about before.
    fn record(&mut self, program: &str, found: bool)
        requires
            old(self).wf(),
            !old(self).cmap().contains_key(program@),
        ensures
            final(self).wf(),
            final(self).cmap() == old(self).cmap().insert(program@, found),
    {
        let ghost pre = self@;
        self.entries.push((String::from_str(program), found));
        proof {
            assert(self@ =~= pre.push((program@, found)));
            assert(self@.drop_last() =~= pre);
            lemma_map_of_contains(pre, program@);
            assert forall|a: int, b: int|
                0 <= a < b < self@.len() implies (#[trigger] self@[a]).0 != (
            #[trigger] self@[b]).0 by {
                if b == self@.len() - 1 {
                    assert(self@[a] == pre[a]);
                }
            }
        }
    }
}

/// Relies on `which::which`: it resolves a program name against the
/// executable search path, succeeding exactly when some candidate is found.
/// What is on the path is the machine's business, so nothing is promised
/// of the answer.
#[verifier::external_body]
fn search_path_has(program: &str) -> bool {
    which::which(program).is_ok()
}

/// Checks whether a program can be found on the executable search path,
/// remembering the answer: a cached program is never searched again, and a
/// fresh answer is cached under the program's name.
pub fn in_path(cache: &mut PathCache, program: &str) -> (r: bool)
    requires
        old(cache).wf(),
    ensures
        final(cache).wf(),
        final(cache).cmap().contains_key(program@),
        r == final(cache).cmap()[program@],
        old(cache).cmap().contains_key(program@) ==> final(cache)@ == old(cache)@ && r == old(
            cache,
        ).cmap()[program@],
        !old(cache).cmap().contains_key(program@) ==> final(cache).cmap() == old(
            cache,
        ).cmap().insert(program@, r),
{
    match cache.lookup(program) {
        Some(found) => found,
        None => {
            let found = search_path_has(program);
            cache.record(program, found);
            found
        },
    }
}

/// The message of the error for a program missing from the search path.
pub open spec fn missing_program_message(program: Seq<char>) -> Seq<char> {
    "The program, "@ + program + ", could be found in PATH."@
}

/// Builds the error owed when a program cannot be found on the search
/// path: status 1, and a message naming the program.
pub fn missing_program_error(program: &str) -> (r: Error)
    ensures
        r@.status == 1,
        r@.message == Some(missing_program_message(program@)),
        r@.context == Seq::<Seq<char>>::empty(),
{
    let mut m = String::from_str("The program, ");
    m.append(program);
    m.append(", could be found in PATH.");
    proof {
        assert(m@ =~= missing_program_message(program@));
    }
    Error::new(1).with_message(m)
}

/// Decides whether an invocation may proceed: the program must be on the
/// search path, or the missing-program error is returned before anything
/// is spawned.
pub fn preflight(cache: &mut PathCache, program: &str) -> (r: Result<(), Error>)
    requires
        old(cache).wf(),
    ensures
        final(cache).wf(),
        final(cache).cmap().contains_key(program@),
        old(cache).cmap().contains_key(program@) ==> final(cache)@ == old(cache)@,
        !old(cache).cmap().contains_key(program@) ==> final(cache).cmap() == old(
            cache,
        ).cmap().insert(program@, final(cache).cmap()[program@]),
        match r {
            Ok(_) => final(cache).cmap()[program@],
            Err(e) => !final(cache).cmap()[program@] && e@.status == 1 && e@.message == Some(
                missing_program_message(program@),
            ) && e@.context == Seq::<Seq<char>>::empty(),
        },
{
    if in_path(cache, program) {
        Ok(())
    } else {
        Err(missing_program_error(program))
    }
}

/// Relies on `String::from_utf8`: it succeeds exactly on valid UTF-8 and
/// decodes the bytes into their scalar values.
#[verifier::external_body]
fn decoded_utf8(bytes: Vec<u8>) -> (r: Option<String>)
    ensures
        match r {
            Some(s) => valid_utf8(bytes@) && s@ == decode_utf8(bytes@),
            None => !valid_utf8(bytes@),
        },
{
    String::from_utf8(bytes).ok()
}

/// The message of the error for captured output that is not UTF-8.
pub open spec fn invalid_output_message(program: Seq<char>) -> Seq<char> {
    "The output of, "@ + program + ", is not valid UTF-8."@
}

/// The fallback message when a failed process's captured error output is
/// itself not UTF-8.
pub open spec fn invalid_error_output_message(program: Seq<char>) -> Seq<char> {
    "The error output of, "@ + program + ", is not valid UTF-8."@
}

/// Decides what a finished capture-mode invocation comes to. On a
/// successful exit the captured standard output is returned as text, and
/// bytes that are not UTF-8 are a status-1 error naming the program. On a
/// failed exit the error carries the child's exit code (1 where the
/// platform reports none) and the captured error output as its message.
pub fn output_outcome(program: &str, success: bool, code: Option<i32>, stdout: Vec<u8>, stderr: Vec<
    u8,
>) -> (r: Result<String, Error>)
    ensures
        match r {
            Ok(s) => success && valid_utf8(stdout@) && s@ == decode_utf8(stdout@),
            Err(e) => {
                &&& e@.context == Seq::<Seq<char>>::empty()
                &&& success ==> !valid_utf8(stdout@) && e@.status == 1 && e@.message == Some(
                    invalid_output_message(program@),
                )
                &&& !success ==> {
                    &&& e@.status == match code {
                        Some(c) => c as int,
                        None => 1,
                    }
                    &&& e@.message == Some(
                        if valid_utf8(stderr@) {
                            decode_utf8(stderr@)
                        } else {
                            invalid_error_output_message(program@)
                        },
                    )
                }
            },
        },
        r is Ok <==> success && valid_utf8(stdout@),
{
    if success {
        match decoded_utf8(stdout) {
            Some(text) => Ok(text),
            None => {
                let mut m = String::from_str("The output of, ");
                m.append(program);
                m.append(", is not valid UTF-8.");
                proof {
                    assert(m@ =~= invalid_output_message(program@));
                }
                Err(Error::new(1).with_message(m))
            },
        }
    } else {
        let status = match code {
            Some(c) => c,
            None => 1,
        };
        let message = match decoded_utf8(stderr) {
            Some(text) => text,
            None => {
                let mut m = String::from_str("The error output of, ");
                m.append(program);
                m.append(", is not valid UTF-8.");
                proof {
                    assert(m@ =~= invalid_error_output_message(program@));
                }
                m
            },
        };
        Err(Error::new(status).with_message(message))
    }
}

/// Decides what a finished pass-through invocation comes to: success is
/// success, and a failed exit is a status-only error carrying the child's
/// exit code (1 where the platform reports none), with no message, since
/// everything the child said was already relayed live.
pub fn pass_through_outcome(success: bool, code: Option<i32>) -> (r: Result<(), Error>)
    ensures
        match r {
            Ok(_) => success,
            Err(e) => !success && e@.status == (match code {
                Some(c) => c as int,
                None => 1,
            }) && e@.message is None && e@.context == Seq::<Seq<char>>::empty(),
        },
{
    if success {
        Ok(())
    } else {
        let status = match code {
            Some(c) => c,
            None => 1,
        };
        Err(Error::new(status))
    }
}

} // verus!
