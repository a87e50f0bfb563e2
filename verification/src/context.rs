//! An in-memory execution context.
//!
//! A context carries the profile and region overrides given on the command
//! line and the two output channels a subcommand writes to. This is the
//! buffer-backed variant: everything written is kept as text, so a test
//! can read back exactly what a subcommand said. The live variant, which
//! writes straight to the process's own streams, lives outside the
//! library.

use vstd::prelude::*;

verus! {

/// The mathematical model of a [`TestContext`].
pub struct ContextModel {
    /// Everything written to the error channel.
    pub error: Seq<char>,
    /// Everything written to the output channel.
    pub output: Seq<char>,
    /// The profile override, if any.
    pub profile: Option<Seq<char>>,
    /// The region override, if any.
    pub region: Option<Seq<char>>,
}

/// A context that keeps everything written to it in memory.
#[derive(Debug)]
pub struct TestContext {
    /// Everything written to the error channel.
    error: String,
    /// Everything written to the output channel.
    output: String,
    /// The profile override, if any.
    profile: Option<String>,
    /// The region override, if any.
    region: Option<String>,
}

impl View for TestContext {
    type V = ContextModel;

    closed spec fn view(&self) -> ContextModel {
        ContextModel {
            error: self.error@,
            output: self.output@,
            profile: match self.profile {
                Some(p) => Some(p@),
                None => None,
            },
            region: match self.region {
                Some(r) => Some(r@),
                None => None,
            },
        }
    }
}

impl Default for TestContext {
    /// Creates a context with empty buffers and no overrides.
    fn default() -> (r: TestContext)
        ensures
            r@.error == Seq::<char>::empty(),
            r@.output == Seq::<char>::empty(),
            r@.profile is None,
            r@.region is None,
    {
        TestContext { error: String::new(), output: String::new(), profile: None, region: None }
    }
}

impl TestContext {
    /// Returns the profile override, if any.
    pub fn profile(&self) -> (r: &Option<String>)
        ensures
            self@.profile == match r {
                Some(p) => Some(p@),
                None => None::<Seq<char>>,
            },
    {
        &self.profile
    }

    /// Returns the region override, if any.
    pub fn region(&self) -> (r: &Option<String>)
        ensures
            self@.region == match r {
                Some(g) => Some(g@),
                None => None::<Seq<char>>,
            },
    {
        &self.region
    }

    /// Sets the profile override, consuming self.
    pub fn with_profile(self, profile: String) -> (r: TestContext)
        ensures
            r@.profile == Some(profile@),
            r@.region == self@.region,
            r@.error == self@.error,
            r@.output == self@.output,
    {
        TestContext { profile: Some(profile), ..self }
    }

    /// Sets the region override, consuming self.
    pub fn with_region(self, region: String) -> (r: TestContext)
        ensures
            r@.region == Some(region@),
            r@.profile == self@.profile,
            r@.error == self@.error,
            r@.output == self@.output,
    {
        TestContext { region: Some(region), ..self }
    }

    /// Appends text to the error channel.
    pub fn write_error(&mut self, text: &str)
        ensures
            final(self)@.error == old(self)@.error + text@,
            final(self)@.output == old(self)@.output,
            final(self)@.profile == old(self)@.profile,
            final(self)@.region == old(self)@.region,
    {
        self.error.append(text);
    }

    /// Appends one line to the error channel: the text, then a newline.
    pub fn write_error_line(&mut self, text: &str)
        ensures
            final(self)@.error == old(self)@.error + text@ + "\n"@,
            final(self)@.output == old(self)@.output,
            final(self)@.profile == old(self)@.profile,
            final(self)@.region == old(self)@.region,
    {
        self.error.append(text);
        self.error.append("\n");
    }

    /// Appends text to the output channel.
    pub fn write_output(&mut self, text: &str)
        ensures
            final(self)@.output == old(self)@.output + text@,
            final(self)@.error == old(self)@.error,
            final(self)@.profile == old(self)@.profile,
            final(self)@.region == old(self)@.region,
    {
        self.output.append(text);
    }

    /// Appends one line to the output channel: the text, then a newline.
    pub fn write_output_line(&mut self, text: &str)
        ensures
            final(self)@.output == old(self)@.output + text@ + "\n"@,
            final(self)@.error == old(self)@.error,
            final(self)@.profile == old(self)@.profile,
            final(self)@.region == old(self)@.region,
    {
        self.output.append(text);
        self.output.append("\n");
    }

    /// Returns everything written to the error channel.
    pub fn error_as_string(&self) -> (r: String)
        ensures
            r@ == self@.error,
    {
        self.error.clone()
    }

    /// Returns everything written to the output channel.
    pub fn output_as_string(&self) -> (r: String)
        ensures
            r@ == self@.output,
    {
        self.output.clone()
    }
}

} // verus!
