//! The settings the program runs with, taken once from the options.
use vstd::prelude::*;
use crate::argument_parser::Arguments;

verus! {

/// The settings the program runs with.
#[derive(Debug)]
pub struct Environment {
    pub debug: bool,
    pub bypass_stdin_check: bool,
    pub stable: bool,
    pub dedup: bool,
    pub file: Vec<String>,
    pub keyword: String,
    pub regex: String,
    pub method: String,
    pub provider: String,
}

/// The texts of a list of strings.
pub open spec fn texts(v: Seq<String>) -> Seq<Seq<char>> {
    v.map_values(|s: String| s@)
}

/// A copy of a list of strings.
fn clone_strings(v: &Vec<String>) -> (r: Vec<String>)
    ensures
        texts(r@) == texts(v@),
{
    let mut r: Vec<String> = Vec::new();
    let mut i: usize = 0;
    while i < v.len()
        invariant
            i <= v@.len(),
            texts(r@) == texts(v@.take(i as int)),
        decreases v@.len() - i,
    {
        let s = v[i].clone();
        let ghost before = r@;
        r.push(s);
        proof {
            assert(texts(r@) =~= texts(before).push(v@[i as int]@));
            assert(v@.take(i + 1) =~= v@.take(i as int).push(v@[i as int]));
            assert(texts(v@.take(i + 1)) =~= texts(v@.take(i as int)).push(v@[i as int]@));
        }
        i = i + 1;
    }
    proof {
        assert(v@.take(v@.len() as int) =~= v@);
    }
    r
}

impl Environment {
    /// The settings are those the options give.
    pub open spec fn taken_from(&self, args: &Arguments) -> bool {
        &&& self.debug == args.debug
        &&& self.bypass_stdin_check == args.bypass_stdin_check
        &&& self.stable == args.stable
        &&& self.dedup == args.dedup
        &&& texts(self.file@) == texts(args.file@)
        &&& self.keyword@ == args.keyword@
        &&& self.regex@ == args.regex@
        &&& self.method@ == args.method@
        &&& self.provider@ == args.provider@
    }

    /// The settings that `args` give.
    pub fn get(args: &Arguments) -> (e: Environment)
        ensures
            e.taken_from(args),
    {
        Environment {
            debug: args.debug,
            bypass_stdin_check: args.bypass_stdin_check,
            stable: args.stable,
            dedup: args.dedup,
            file: clone_strings(&args.file),
            keyword: args.keyword.clone(),
            regex: args.regex.clone(),
            method: args.method.clone(),
            provider: args.provider.clone(),
        }
    }

    /// Sets the settings up once: the first call fills `cell` from `args`;
    /// later calls leave it as it is.
    pub fn setup(cell: &mut Option<Environment>, args: &Arguments)
        ensures
            (*old(cell)) is Some ==> *final(cell) == *old(cell),
            (*old(cell)) is None ==> ((*final(cell)) matches Some(e) && e.taken_from(args)),
    {
        if cell.is_none() {
            *cell = Some(Self::get(args));
        }
    }
}

} // verus!
