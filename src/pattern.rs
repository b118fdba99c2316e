//! A single regular expression with its modifier flags.
use vstd::prelude::*;
use crate::matcher::{regex_compiles, regex_finds, Matcher};

verus! {

broadcast use vstd::string::to_string_from_display_ensures_for_str;

/// A modifier that a pattern may carry.
#[derive(Debug, Clone, Copy, PartialEq, Eq, Structural)]
pub enum Flag {
    /// `"i"`: letters match regardless of case.
    CaseInsensitive,
    /// `"m"`: `^` and `$` match at line boundaries.
    MultiLine,
}

impl Flag {
    /// The flag that a flag string names, if any.
    pub open spec fn spec_parse(s: Seq<char>) -> Option<Flag> {
        if s == seq!['i'] {
            Some(Flag::CaseInsensitive)
        } else if s == seq!['m'] {
            Some(Flag::MultiLine)
        } else {
            None
        }
    }

    /// Reads a flag string: `"i"` or `"m"`; anything else is unknown.
    pub fn parse(s: &String) -> (r: Option<Flag>)
        ensures
            r == Flag::spec_parse(s@),
    {
        let i = "i".to_string();
        let m = "m".to_string();
        proof {
            reveal_strlit("i");
            reveal_strlit("m");
            assert(i@ =~= seq!['i']);
            assert(m@ =~= seq!['m']);
        }
        if *s == i {
            Some(Flag::CaseInsensitive)
        } else if *s == m {
            Some(Flag::MultiLine)
        } else {
            None
        }
    }
}

/// Why a pattern, a rule or a rule box failed to compile.
#[derive(Debug, PartialEq, Eq)]
pub enum CompileError {
    /// A flag string that names no [`Flag`].
    UnknownFlag(String),
    /// The regex engine refused the pattern source; `message` is its diagnostic.
    InvalidPattern { pattern: String, message: String },
    /// A rule has both all-of and any-of patterns.
    AndWithOr,
    /// A rule has none-of patterns and nothing else.
    OnlyNot,
}

/// Whether every flag string names a [`Flag`].
pub open spec fn flags_known(flags: Seq<String>) -> bool {
    forall|k: int| 0 <= k < flags.len() ==> (#[trigger] Flag::spec_parse(flags[k]@)) is Some
}

/// Whether some flag string names `f`.
pub open spec fn has_flag(flags: Seq<String>, f: Flag) -> bool {
    exists|k: int| 0 <= k < flags.len() && #[trigger] Flag::spec_parse(flags[k]@) == Some(f)
}

/// A regular expression with modifier flags and, once compiled, its matcher.
#[derive(Debug)]
pub struct RegexRule {
    pub pattern: String,
    pub flags: Vec<String>,
    pub compiled: Option<Matcher>,
}

impl RegexRule {
    pub open spec fn case_insensitive(&self) -> bool {
        has_flag(self.flags@, Flag::CaseInsensitive)
    }

    pub open spec fn multi_line(&self) -> bool {
        has_flag(self.flags@, Flag::MultiLine)
    }

    /// Every flag is known and the source compiles under the flags' options.
    pub open spec fn is_valid(&self) -> bool {
        flags_known(self.flags@) && regex_compiles(
            self.pattern@,
            self.case_insensitive(),
            self.multi_line(),
        )
    }

    /// The matcher is present and was built from this pattern and its flags.
    pub open spec fn is_compiled(&self) -> bool {
        &&& self.compiled is Some
        &&& self.compiled->0.settings() == (
            self.pattern@,
            self.case_insensitive(),
            self.multi_line(),
        )
    }

    /// What the pattern is meant to decide of `text`: whether its regex, under
    /// its flags, finds a match anywhere in it.
    pub open spec fn finds(&self, text: Seq<char>) -> bool {
        regex_finds(self.pattern@, self.case_insensitive(), self.multi_line(), text)
    }

    /// Whether the present matcher finds a match in `text`; without a matcher
    /// a pattern matches nothing.
    pub open spec fn matches(&self, text: Seq<char>) -> bool {
        match self.compiled {
            Some(m) => m.finds(text),
            None => false,
        }
    }

    /// The error that compiling this pattern reports: the first unknown flag,
    /// or else a refused source.
    pub open spec fn fails_with(&self, e: CompileError) -> bool {
        match e {
            CompileError::UnknownFlag(f) => exists|k: int|
                0 <= k < self.flags@.len() && (#[trigger] Flag::spec_parse(self.flags@[k]@)) is None
                    && flags_known(self.flags@.take(k)) && f@ == self.flags@[k]@,
            CompileError::InvalidPattern { pattern, message } => {
                &&& flags_known(self.flags@)
                &&& !regex_compiles(self.pattern@, self.case_insensitive(), self.multi_line())
                &&& pattern@ == self.pattern@
            },
            _ => false,
        }
    }

    /// Builds the matcher from the source and the flags. On failure the pattern
    /// is left as it was.
    pub fn compile(&mut self) -> (r: Result<(), CompileError>)
        ensures
            final(self).pattern == old(self).pattern,
            final(self).flags == old(self).flags,
            r is Ok <==> old(self).is_valid(),
            r is Ok ==> final(self).is_compiled(),
            r matches Err(e) ==> old(self).fails_with(e) && final(self).compiled == old(self).compiled,
    {
        let mut case_insensitive = false;
        let mut multi_line = false;
        let mut k: usize = 0;
        while k < self.flags.len()
            invariant
                k <= self.flags@.len(),
                flags_known(self.flags@.take(k as int)),
                case_insensitive == has_flag(self.flags@.take(k as int), Flag::CaseInsensitive),
                multi_line == has_flag(self.flags@.take(k as int), Flag::MultiLine),
            decreases self.flags@.len() - k,
        {
            let ghost prev = self.flags@.take(k as int);
            let ghost next = self.flags@.take(k + 1);
            assert(next == prev.push(self.flags@[k as int]));
            assert(forall|j: int| 0 <= j < k ==> next[j] == prev[j]);
            match Flag::parse(&self.flags[k]) {
                Some(Flag::CaseInsensitive) => {
                    case_insensitive = true;
                    assert(Flag::spec_parse(next[k as int]@) == Some(Flag::CaseInsensitive));
                },
                Some(Flag::MultiLine) => {
                    multi_line = true;
                    assert(Flag::spec_parse(next[k as int]@) == Some(Flag::MultiLine));
                },
                None => {
                    let r = Err(CompileError::UnknownFlag(self.flags[k].clone()));
                    assert(self.fails_with(r->Err_0));
                    assert(!flags_known(self.flags@)) by {
                        assert(Flag::spec_parse(self.flags@[k as int]@) is None);
                    }
                    return r;
                },
            }
            k = k + 1;
        }
        assert(self.flags@.take(k as int) == self.flags@);
        match Matcher::build(self.pattern.as_str(), case_insensitive, multi_line) {
            Ok(m) => {
                self.compiled = Some(m);
                Ok(())
            },
            Err(message) => Err(CompileError::InvalidPattern { pattern: self.pattern.clone(), message }),
        }
    }

    /// Whether the matcher finds a match anywhere in `text`; `false` where the
    /// pattern has not been compiled.
    pub fn check(&self, text: &str) -> (r: bool)
        ensures
            r == self.matches(text@),
            self.is_compiled() ==> r == self.finds(text@),
    {
        match &self.compiled {
            Some(m) => m.is_match(text),
            None => false,
        }
    }
}

} // verus!
