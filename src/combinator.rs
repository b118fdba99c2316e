//! A boolean rule over three groups of patterns: all of, any of, none of.
use vstd::prelude::*;
use crate::pattern::{CompileError, RegexRule};

verus! {

/// Whether every pattern of `ps` matches `text`.
pub open spec fn all_match(ps: Seq<RegexRule>, text: Seq<char>) -> bool {
    forall|k: int| 0 <= k < ps.len() ==> (#[trigger] ps[k]).matches(text)
}

/// Whether some pattern of `ps` matches `text`.
pub open spec fn any_match(ps: Seq<RegexRule>, text: Seq<char>) -> bool {
    exists|k: int| 0 <= k < ps.len() && (#[trigger] ps[k]).matches(text)
}

/// Whether every pattern of `ps`, by its source and flags, finds a match in `text`.
pub open spec fn all_find(ps: Seq<RegexRule>, text: Seq<char>) -> bool {
    forall|k: int| 0 <= k < ps.len() ==> (#[trigger] ps[k]).finds(text)
}

/// Whether some pattern of `ps`, by its source and flags, finds a match in `text`.
pub open spec fn any_find(ps: Seq<RegexRule>, text: Seq<char>) -> bool {
    exists|k: int| 0 <= k < ps.len() && (#[trigger] ps[k]).finds(text)
}

/// Whether every pattern of `ps` has known flags and a source that compiles.
pub open spec fn all_valid(ps: Seq<RegexRule>) -> bool {
    forall|k: int| 0 <= k < ps.len() ==> (#[trigger] ps[k]).is_valid()
}

/// Whether every pattern of `ps` holds a matcher built from its own source and flags.
pub open spec fn all_compiled(ps: Seq<RegexRule>) -> bool {
    forall|k: int| 0 <= k < ps.len() ==> (#[trigger] ps[k]).is_compiled()
}

/// Whether `a` and `b` hold the same sources and flags, in the same order.
pub open spec fn same_sources(a: Seq<RegexRule>, b: Seq<RegexRule>) -> bool {
    &&& a.len() == b.len()
    &&& forall|k: int|
        0 <= k < a.len() ==> (#[trigger] a[k]).pattern == b[k].pattern && a[k].flags == b[k].flags
}

/// `ps[k]` is the first invalid pattern of `ps`, and `e` its error.
pub open spec fn first_failure_at(ps: Seq<RegexRule>, k: int, e: CompileError) -> bool {
    0 <= k < ps.len() && !ps[k].is_valid() && all_valid(ps.take(k)) && ps[k].fails_with(e)
}

/// The error of the first invalid pattern of `ps`.
pub open spec fn first_failure(ps: Seq<RegexRule>, e: CompileError) -> bool {
    exists|k: int| #[trigger] first_failure_at(ps, k, e)
}

/// `a` and `b` have one length and agree from index `k` on.
pub open spec fn unchanged_from(a: Seq<RegexRule>, b: Seq<RegexRule>, k: int) -> bool {
    a.len() == b.len() && forall|j: int| k <= j < a.len() ==> #[trigger] a[j] == b[j]
}

/// Compiles each pattern of `ps` in order, stopping at the first failure.
fn compile_group(ps: &mut Vec<RegexRule>) -> (r: Result<(), CompileError>)
    ensures
        same_sources(final(ps)@, old(ps)@),
        r is Ok <==> all_valid(old(ps)@),
        r is Ok ==> all_compiled(final(ps)@),
        r matches Err(e) ==> exists|k: int|
            #[trigger] first_failure_at(old(ps)@, k, e) && unchanged_from(final(ps)@, old(ps)@, k),
{
    let ghost start = ps@;
    let mut k: usize = 0;
    while k < ps.len()
        invariant
            k <= ps@.len(),
            start == old(ps)@,
            same_sources(ps@, start),
            all_valid(start.take(k as int)),
            forall|j: int| 0 <= j < k ==> (#[trigger] ps@[j]).is_compiled(),
            forall|j: int| k <= j < ps@.len() ==> (#[trigger] ps@[j]) == start[j],
        decreases ps@.len() - k,
    {
        let res = ps[k].compile();
        assert(start.take(k as int + 1) == start.take(k as int).push(start[k as int]));
        assert(same_sources(ps@, start)) by {
            assert forall|j: int| 0 <= j < ps@.len() implies (#[trigger] ps@[j]).pattern == start[j].pattern
                && ps@[j].flags == start[j].flags by {
                if j == k {
                    assert(ps@[j].pattern == start[j].pattern);
                }
            }
        }
        match res {
            Ok(()) => {},
            Err(e) => {
                assert(!start[k as int].is_valid());
                assert(!all_valid(start));
                assert(first_failure_at(start, k as int, e));
                assert(unchanged_from(ps@, start, k as int));
                return Err(e);
            },
        }
        k = k + 1;
    }
    assert(start.take(k as int) == start);
    Ok(())
}

/// Whether every pattern of `ps` matches `text`.
fn check_all(ps: &Vec<RegexRule>, text: &str) -> (r: bool)
    ensures
        r == all_match(ps@, text@),
{
    let mut k: usize = 0;
    while k < ps.len()
        invariant
            k <= ps@.len(),
            forall|j: int| 0 <= j < k ==> (#[trigger] ps@[j]).matches(text@),
        decreases ps@.len() - k,
    {
        if !ps[k].check(text) {
            return false;
        }
        k = k + 1;
    }
    true
}

/// Whether some pattern of `ps` matches `text`.
fn check_any(ps: &Vec<RegexRule>, text: &str) -> (r: bool)
    ensures
        r == any_match(ps@, text@),
{
    let mut k: usize = 0;
    while k < ps.len()
        invariant
            k <= ps@.len(),
            forall|j: int| 0 <= j < k ==> !(#[trigger] ps@[j]).matches(text@),
        decreases ps@.len() - k,
    {
        if ps[k].check(text) {
            return true;
        }
        k = k + 1;
    }
    false
}

/// A boolean rule: every pattern of `and_patterns`, at least one of
/// `or_patterns` (each group only where it is non-empty), and none of
/// `not_patterns`.
#[derive(Debug)]
pub struct Rule {
    pub and_patterns: Vec<RegexRule>,
    pub or_patterns: Vec<RegexRule>,
    pub not_patterns: Vec<RegexRule>,
}

impl Rule {
    /// All patterns, in the order they are compiled: all-of, any-of, none-of.
    pub open spec fn patterns(&self) -> Seq<RegexRule> {
        self.and_patterns@ + self.or_patterns@ + self.not_patterns@
    }

    /// The all-of and any-of groups are not both non-empty, and the none-of
    /// group does not stand alone.
    pub open spec fn well_shaped(&self) -> bool {
        &&& !(self.and_patterns@.len() > 0 && self.or_patterns@.len() > 0)
        &&& !(self.and_patterns@.len() == 0 && self.or_patterns@.len() == 0
            && self.not_patterns@.len() > 0)
    }

    /// Every pattern is valid and the groups are well shaped.
    pub open spec fn is_valid(&self) -> bool {
        all_valid(self.patterns()) && self.well_shaped()
    }

    /// Every pattern holds a matcher built from its own source and flags.
    pub open spec fn is_compiled(&self) -> bool {
        all_compiled(self.patterns())
    }

    /// Whether this rule and `other` hold the same sources and flags in each group.
    pub open spec fn same_sources(&self, other: Rule) -> bool {
        &&& same_sources(self.and_patterns@, other.and_patterns@)
        &&& same_sources(self.or_patterns@, other.or_patterns@)
        &&& same_sources(self.not_patterns@, other.not_patterns@)
    }

    /// The rule's verdict on `text`.
    pub open spec fn matches(&self, text: Seq<char>) -> bool {
        &&& (self.and_patterns@.len() == 0 || all_match(self.and_patterns@, text))
        &&& (self.or_patterns@.len() == 0 || any_match(self.or_patterns@, text))
        &&& !any_match(self.not_patterns@, text)
    }

    /// The verdict that the rule's definition asks for on `text`: all of the
    /// all-of group (where non-empty), one of the any-of group (where
    /// non-empty), none of the none-of group, each by its source and flags.
    pub open spec fn decides(&self, text: Seq<char>) -> bool {
        &&& (self.and_patterns@.len() == 0 || all_find(self.and_patterns@, text))
        &&& (self.or_patterns@.len() == 0 || any_find(self.or_patterns@, text))
        &&& !any_find(self.not_patterns@, text)
    }

    /// The error that compiling this rule reports: that of the first invalid
    /// pattern, or else the first broken shape condition.
    pub open spec fn fails_with(&self, e: CompileError) -> bool {
        match e {
            CompileError::AndWithOr => all_valid(self.patterns()) && self.and_patterns@.len() > 0
                && self.or_patterns@.len() > 0,
            CompileError::OnlyNot => all_valid(self.patterns()) && self.and_patterns@.len() == 0
                && self.or_patterns@.len() == 0 && self.not_patterns@.len() > 0,
            _ => first_failure(self.patterns(), e),
        }
    }

    /// Compiles every pattern (all-of, then any-of, then none-of), then checks
    /// the shape of the groups. Stops at the first failure.
    pub fn compile(&mut self) -> (r: Result<(), CompileError>)
        ensures
            final(self).same_sources(*old(self)),
            r is Ok <==> old(self).is_valid(),
            r is Ok ==> final(self).is_compiled(),
            r matches Err(e) ==> old(self).fails_with(e),
            r matches Err(e) ==> (e is AndWithOr || e is OnlyNot) ==> final(self).is_compiled(),
            r matches Err(e) ==> !(e is AndWithOr || e is OnlyNot) ==> exists|k: int|
                #[trigger] first_failure_at(old(self).patterns(), k, e)
                    && unchanged_from(final(self).patterns(), old(self).patterns(), k),
    {
        let ghost start = *self;
        let ghost all = start.patterns();
        let ghost na = start.and_patterns@.len() as int;
        let ghost no = start.or_patterns@.len() as int;
        assert(all.take(na) == start.and_patterns@);
        assert(all.take(na + no) == start.and_patterns@ + start.or_patterns@);
        match compile_group(&mut self.and_patterns) {
            Ok(()) => {},
            Err(e) => {
                proof {
                    let k = choose|k: int|
                        #[trigger] first_failure_at(start.and_patterns@, k, e)
                            && unchanged_from(self.and_patterns@, start.and_patterns@, k);
                    assert(all[k] == start.and_patterns@[k]);
                    assert(all.take(k) == start.and_patterns@.take(k));
                    assert(first_failure_at(all, k, e));
                    let now = self.patterns();
                    assert forall|j: int| k <= j < now.len() implies #[trigger] now[j] == all[j] by {
                        if j < na {
                            assert(self.and_patterns@[j] == start.and_patterns@[j]);
                        }
                    }
                }
                return Err(e);
            },
        }
        match compile_group(&mut self.or_patterns) {
            Ok(()) => {},
            Err(e) => {
                proof {
                    let k = choose|k: int|
                        #[trigger] first_failure_at(start.or_patterns@, k, e)
                            && unchanged_from(self.or_patterns@, start.or_patterns@, k);
                    assert(all[na + k] == start.or_patterns@[k]);
                    assert(all.take(na + k) == start.and_patterns@ + start.or_patterns@.take(k));
                    assert forall|j: int| 0 <= j < na + k implies (#[trigger] all.take(na + k)[j]).is_valid() by {
                        if j < na {
                            assert(start.and_patterns@[j].is_valid());
                        } else {
                            assert(start.or_patterns@.take(k)[j - na].is_valid());
                        }
                    }
                    assert(first_failure_at(all, na + k, e));
                    let now = self.patterns();
                    assert forall|j: int| na + k <= j < now.len() implies #[trigger] now[j] == all[j] by {
                        if j < na + no {
                            assert(self.or_patterns@[j - na] == start.or_patterns@[j - na]);
                        }
                    }
                }
                return Err(e);
            },
        }
        match compile_group(&mut self.not_patterns) {
            Ok(()) => {},
            Err(e) => {
                proof {
                    let k = choose|k: int|
                        #[trigger] first_failure_at(start.not_patterns@, k, e)
                            && unchanged_from(self.not_patterns@, start.not_patterns@, k);
                    assert(all[na + no + k] == start.not_patterns@[k]);
                    assert(all.take(na + no + k) == start.and_patterns@ + start.or_patterns@
                        + start.not_patterns@.take(k));
                    assert forall|j: int| 0 <= j < na + no + k implies (#[trigger] all.take(na + no + k)[j]).is_valid() by {
                        if j < na {
                            assert(start.and_patterns@[j].is_valid());
                        } else if j < na + no {
                            assert(start.or_patterns@[j - na].is_valid());
                        } else {
                            assert(start.not_patterns@.take(k)[j - na - no].is_valid());
                        }
                    }
                    assert(first_failure_at(all, na + no + k, e));
                    let now = self.patterns();
                    assert forall|j: int| na + no + k <= j < now.len() implies #[trigger] now[j] == all[j] by {
                        assert(self.not_patterns@[j - na - no] == start.not_patterns@[j - na - no]);
                    }
                }
                return Err(e);
            },
        }
        proof {
            assert forall|j: int| 0 <= j < all.len() implies (#[trigger] all[j]).is_valid() by {
                if j < na {
                    assert(start.and_patterns@[j].is_valid());
                } else if j < na + no {
                    assert(start.or_patterns@[j - na].is_valid());
                } else {
                    assert(start.not_patterns@[j - na - no].is_valid());
                }
            }
            let now = self.patterns();
            assert forall|j: int| 0 <= j < now.len() implies (#[trigger] now[j]).is_compiled() by {
                if j < na {
                    assert(self.and_patterns@[j].is_compiled());
                } else if j < na + no {
                    assert(self.or_patterns@[j - na].is_compiled());
                } else {
                    assert(self.not_patterns@[j - na - no].is_compiled());
                }
            }
        }
        if !self.and_patterns.is_empty() && !self.or_patterns.is_empty() {
            return Err(CompileError::AndWithOr);
        }
        if self.and_patterns.is_empty() && self.or_patterns.is_empty() && !self.not_patterns.is_empty() {
            return Err(CompileError::OnlyNot);
        }
        Ok(())
    }

    /// Whether the rule holds of `text`: the all-of group (where non-empty)
    /// matches wholly, the any-of group (where non-empty) matches at least
    /// once, and no none-of pattern matches.
    pub fn check(&self, text: &str) -> (r: bool)
        ensures
            r == self.matches(text@),
    {
        if !self.and_patterns.is_empty() && !check_all(&self.and_patterns, text) {
            return false;
        }
        if !self.or_patterns.is_empty() && !check_any(&self.or_patterns, text) {
            return false;
        }
        if check_any(&self.not_patterns, text) {
            return false;
        }
        true
    }
}

/// Once compiled, a rule's verdict on every text is the one its definition
/// asks for: the all-of group empty or wholly matching, the any-of group empty
/// or matching once, and no none-of pattern matching.
pub proof fn lemma_compiled_rule_decides(r: Rule, text: Seq<char>)
    requires
        r.is_compiled(),
    ensures
        r.matches(text) == r.decides(text),
{
    let all = r.patterns();
    let na = r.and_patterns@.len() as int;
    let no = r.or_patterns@.len() as int;
    assert forall|k: int| 0 <= k < na implies (#[trigger] r.and_patterns@[k]).matches(text)
        == r.and_patterns@[k].finds(text) by {
        assert(all[k] == r.and_patterns@[k]);
    }
    assert forall|k: int| 0 <= k < no implies (#[trigger] r.or_patterns@[k]).matches(text)
        == r.or_patterns@[k].finds(text) by {
        assert(all[na + k] == r.or_patterns@[k]);
    }
    assert forall|k: int| 0 <= k < r.not_patterns@.len() implies (#[trigger] r.not_patterns@[k]).matches(text)
        == r.not_patterns@[k].finds(text) by {
        assert(all[na + no + k] == r.not_patterns@[k]);
    }
    assert(all_match(r.and_patterns@, text) == all_find(r.and_patterns@, text));
    assert(any_match(r.or_patterns@, text) == any_find(r.or_patterns@, text));
    assert(any_match(r.not_patterns@, text) == any_find(r.not_patterns@, text));
}

} // verus!
