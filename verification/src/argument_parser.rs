//! The program's options.
use vstd::prelude::*;

verus! {

/// What Unicode lowercasing (`str::to_lowercase`) makes of the text.
pub uninterp spec fn unicode_lowercase(s: Seq<char>) -> Seq<char>;

/// `str::to_lowercase`: the text with every character lowercased as
/// Unicode defines it.  The contract names the outcome.
#[verifier::external_body]
fn to_lowercase(s: &str) -> (r: String)
    ensures
        r@ == unicode_lowercase(s@),
{
    s.to_lowercase()
}

/// The program's options, as given on the command line.
#[derive(Debug)]
pub struct Arguments {
    pub config: bool,
    pub debug: bool,
    pub bypass_stdin_check: bool,
    pub stable: bool,
    pub dedup: bool,
    pub file: Vec<String>,
    pub keyword: String,
    pub regex: String,
    pub prefix: String,
    pub suffix: String,
    pub method: String,
    pub provider: String,
}

impl Arguments {
    /// The options with the method and provider names lowercased, so that
    /// they parse whatever their case; every other option is unchanged.
    pub fn lowercase(self) -> (r: Arguments)
        ensures
            r.method@ == unicode_lowercase(self.method@),
            r.provider@ == unicode_lowercase(self.provider@),
            r.config == self.config,
            r.debug == self.debug,
            r.bypass_stdin_check == self.bypass_stdin_check,
            r.stable == self.stable,
            r.dedup == self.dedup,
            r.file == self.file,
            r.keyword == self.keyword,
            r.regex == self.regex,
            r.prefix == self.prefix,
            r.suffix == self.suffix,
    {
        let mut args = self;
        args.method = to_lowercase(args.method.as_str());
        args.provider = to_lowercase(args.provider.as_str());
        args
    }
}

} // verus!
