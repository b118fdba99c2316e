//! Labelled rules, the labelled text they are run against, and the rule box
//! that compiles and runs them in order.
use vstd::prelude::*;
use crate::combinator::{first_failure_at, unchanged_from, Rule};
use crate::labels::{
    add_label, contains_label, first_found, label_views, labels_for, lemma_first_found,
    lemma_first_found_step, lemma_skip_inactive, push_label,
};
use crate::pattern::CompileError;

verus! {

/// Whether `c` is a lower-case hexadecimal digit.
pub open spec fn is_lower_hex_digit(c: char) -> bool {
    ('0' <= c && c <= '9') || ('a' <= c && c <= 'f')
}

/// The hyphenated lower-case text of a version 7 UUID: 8-4-4-4-12 hex digits,
/// version digit `7`, and a variant digit of `8`, `9`, `a` or `b`.
pub open spec fn is_v7_uuid_text(s: Seq<char>) -> bool {
    &&& s.len() == 36
    &&& forall|i: int|
        0 <= i < 36 ==> if i == 8 || i == 13 || i == 18 || i == 23 {
            #[trigger] s[i] == '-'
        } else {
            is_lower_hex_digit(s[i])
        }
    &&& s[14] == '7'
    &&& (s[19] == '8' || s[19] == '9' || s[19] == 'a' || s[19] == 'b')
}

/// Relies on uuid::Uuid::now_v7 and its `Display` (the hyphenated lower-case
/// form): a fresh time-ordered version 7 identifier.
#[verifier::external_body]
fn generate_uuid() -> (r: String)
    ensures
        is_v7_uuid_text(r@),
{
    uuid::Uuid::now_v7().to_string()
}

/// Whether a rule is active when its definition does not say.
pub fn default_true() -> (r: bool)
    ensures
        r,
{
    true
}

/// A rule that, while active, gives its label to every text it matches.
#[derive(Debug)]
pub struct LabelRule {
    pub uuid: String,
    pub rule: Rule,
    pub label: String,
    /// An example text, for documentation only.
    pub proto_text: String,
    pub active: bool,
}

impl LabelRule {
    /// Whether this rule gives its label to `text`.
    pub open spec fn fires(&self, text: Seq<char>) -> bool {
        self.active && self.rule.matches(text)
    }

    /// Whether `other` has the same identifier, label, example, activity and
    /// pattern sources as this rule.
    pub open spec fn same_definition(&self, other: LabelRule) -> bool {
        &&& self.uuid == other.uuid
        &&& self.label == other.label
        &&& self.proto_text == other.proto_text
        &&& self.active == other.active
        &&& self.rule.same_sources(other.rule)
    }

    /// A rule from the fields of its definition: a missing identifier is
    /// generated, a missing example is empty, and a missing activity is `true`.
    pub fn from_definition(
        rule: Rule,
        label: String,
        uuid: Option<String>,
        proto_text: Option<String>,
        active: Option<bool>,
    ) -> (r: LabelRule)
        ensures
            r.rule == rule,
            r.label == label,
            uuid matches Some(u) ==> r.uuid == u,
            uuid is None ==> is_v7_uuid_text(r.uuid@),
            proto_text matches Some(p) ==> r.proto_text == p,
            proto_text is None ==> r.proto_text@.len() == 0,
            r.active == match active {
                Some(a) => a,
                None => true,
            },
    {
        let uuid = match uuid {
            Some(u) => u,
            None => generate_uuid(),
        };
        let proto_text = match proto_text {
            Some(p) => p,
            None => String::new(),
        };
        let active = match active {
            Some(a) => a,
            None => default_true(),
        };
        LabelRule { uuid, rule, label, proto_text, active }
    }

    /// Compiles the rule's combinator; the error is the combinator's own.
    pub fn compile(&mut self) -> (r: Result<(), CompileError>)
        ensures
            final(self).same_definition(*old(self)),
            r is Ok <==> old(self).rule.is_valid(),
            r is Ok ==> final(self).rule.is_compiled(),
            r matches Err(e) ==> old(self).rule.fails_with(e),
            r matches Err(e) ==> (e is AndWithOr || e is OnlyNot) ==> final(self).rule.is_compiled(),
            r matches Err(e) ==> !(e is AndWithOr || e is OnlyNot) ==> exists|k: int|
                #[trigger] first_failure_at(old(self).rule.patterns(), k, e)
                    && unchanged_from(final(self).rule.patterns(), old(self).rule.patterns(), k),
    {
        self.rule.compile()
    }

    /// Adds the label to `text` where the rule is active and matches its content.
    pub fn check(&self, text: &mut LabeledText)
        requires
            old(text).wf(),
        ensures
            final(text).wf(),
            final(text).content == old(text).content,
            final(text).labels_view() == (if self.fires(old(text).content@) {
                add_label(old(text).labels_view(), self.label@)
            } else {
                old(text).labels_view()
            }),
    {
        if self.active && self.rule.check(text.content.as_str()) {
            push_label(&mut text.labels, &self.label);
            proof {
                crate::labels::lemma_add_label(old(text).labels_view(), self.label@);
            }
        }
    }
}

/// A text with the labels assigned to it.
#[derive(Debug)]
pub struct LabeledText {
    pub content: String,
    /// Each label once, in the order in which it was assigned.
    pub labels: Vec<String>,
}

impl LabeledText {
    /// The labels as character sequences, in order.
    pub open spec fn labels_view(&self) -> Seq<Seq<char>> {
        label_views(self.labels@)
    }

    /// No label is held twice.
    pub open spec fn wf(&self) -> bool {
        self.labels_view().no_duplicates()
    }

    /// A text with no labels yet.
    pub fn new(content: String) -> (r: Self)
        ensures
            r.content == content,
            r.labels@.len() == 0,
            r.wf(),
    {
        let r = Self { content, labels: Vec::new() };
        assert(r.labels_view() =~= Seq::<Seq<char>>::empty());
        r
    }
}

/// An ordered collection of labelled rules.
#[derive(Debug)]
pub struct RuleBox(pub Vec<LabelRule>);

impl RuleBox {
    /// Every rule's combinator is valid: known flags, sources that compile,
    /// and well-shaped groups.
    pub open spec fn is_valid(&self) -> bool {
        forall|k: int| 0 <= k < self.0@.len() ==> (#[trigger] self.0@[k]).rule.is_valid()
    }

    /// Every pattern of every rule holds a matcher built from its own source and flags.
    pub open spec fn is_compiled(&self) -> bool {
        forall|k: int| 0 <= k < self.0@.len() ==> (#[trigger] self.0@[k]).rule.is_compiled()
    }

    /// Rule `k` is the first that does not compile, and `e` its error.
    pub open spec fn fails_at(&self, k: int, e: CompileError) -> bool {
        &&& 0 <= k < self.0@.len()
        &&& !self.0@[k].rule.is_valid()
        &&& forall|j: int| 0 <= j < k ==> (#[trigger] self.0@[j]).rule.is_valid()
        &&& self.0@[k].rule.fails_with(e)
    }

    /// The error of the first rule that does not compile.
    pub open spec fn fails_with(&self, e: CompileError) -> bool {
        exists|k: int| #[trigger] self.fails_at(k, e)
    }

    /// Compiles every rule in order; the first failure stops the whole box.
    pub fn compile(&mut self) -> (r: Result<(), CompileError>)
        ensures
            final(self).0@.len() == old(self).0@.len(),
            forall|k: int| 0 <= k < old(self).0@.len() ==> (#[trigger] final(self).0@[k]).same_definition(old(self).0@[k]),
            r is Ok <==> old(self).is_valid(),
            r is Ok ==> final(self).is_compiled(),
            r matches Err(e) ==> old(self).fails_with(e),
            r matches Err(e) ==> exists|k: int|
                #[trigger] old(self).fails_at(k, e) && (forall|j: int|
                    k < j < old(self).0@.len() ==> #[trigger] final(self).0@[j] == old(self).0@[j]),
    {
        let ghost start = self.0@;
        let mut k: usize = 0;
        while k < self.0.len()
            invariant
                k <= self.0@.len(),
                start == old(self).0@,
                self.0@.len() == start.len(),
                forall|j: int| 0 <= j < start.len() ==> (#[trigger] self.0@[j]).same_definition(start[j]),
                forall|j: int| 0 <= j < k ==> (#[trigger] start[j]).rule.is_valid(),
                forall|j: int| 0 <= j < k ==> (#[trigger] self.0@[j]).rule.is_compiled(),
                forall|j: int| k <= j < start.len() ==> (#[trigger] self.0@[j]) == start[j],
            decreases start.len() - k,
        {
            let res = self.0[k].compile();
            match res {
                Ok(()) => {},
                Err(e) => {
                    assert(!old(self).is_valid()) by {
                        assert(!start[k as int].rule.is_valid());
                    }
                    assert(old(self).fails_at(k as int, e));
                    return Err(e);
                },
            }
            k = k + 1;
        }
        Ok(())
    }

    /// A compiled rule box from `rules`, or the error of the first rule that
    /// does not compile: no partly compiled box is ever returned.
    pub fn from_rules(rules: Vec<LabelRule>) -> (r: Result<RuleBox, CompileError>)
        ensures
            r is Ok <==> RuleBox(rules).is_valid(),
            r matches Ok(b) ==> b.is_compiled() && b.0@.len() == rules@.len() && (forall|k: int|
                0 <= k < rules@.len() ==> (#[trigger] b.0@[k]).same_definition(rules@[k])),
            r matches Err(e) ==> RuleBox(rules).fails_with(e),
    {
        let mut rule_box = RuleBox(rules);
        match rule_box.compile() {
            Ok(()) => Ok(rule_box),
            Err(e) => Err(e),
        }
    }

    /// Runs every rule, in order, against a fresh labelled text. The labels
    /// are those of the active rules that match, each once; they stand in the
    /// order in which the rules first yield them, as in the batch path.
    pub fn check(&self, text: &str) -> (r: LabeledText)
        ensures
            r.content@ == text@,
            r.wf(),
            r.labels_view() == first_found(self.0@, text@),
            r.labels_view().to_set() == labels_for(self.0@, text@),
    {
        let mut labeled = LabeledText::new(text.to_string());
        assert(labeled.labels_view() =~= first_found(self.0@.take(0), text@));
        let mut k: usize = 0;
        while k < self.0.len()
            invariant
                k <= self.0@.len(),
                labeled.content@ == text@,
                labeled.wf(),
                labeled.labels_view() == first_found(self.0@.take(k as int), text@),
            decreases self.0@.len() - k,
        {
            self.0[k].check(&mut labeled);
            proof {
                lemma_first_found_step(self.0@, k as int, text@);
            }
            k = k + 1;
        }
        proof {
            assert(self.0@.take(k as int) == self.0@);
            lemma_first_found(self.0@, text@);
            assert(labeled.labels_view().to_set() =~= labels_for(self.0@, text@));
        }
        labeled
    }

    /// The label list of each text, in order; see [`RuleBox::check`].
    pub fn check_many(&self, texts: &[String]) -> (r: Vec<Vec<String>>)
        ensures
            r@.len() == texts@.len(),
            forall|k: int| 0 <= k < texts@.len() ==> label_views((#[trigger] r@[k])@) == first_found(self.0@, texts@[k]@),
    {
        let mut out: Vec<Vec<String>> = Vec::new();
        let mut k: usize = 0;
        while k < texts.len()
            invariant
                k <= texts@.len(),
                out@.len() == k,
                forall|j: int| 0 <= j < k ==> label_views((#[trigger] out@[j])@) == first_found(self.0@, texts@[j]@),
            decreases texts@.len() - k,
        {
            out.push(self.check(texts[k].as_str()).labels);
            k = k + 1;
        }
        out
    }

    /// The labels of one text, each once; see [`RuleBox::check`].
    pub fn assign_labels(&self, text: &str) -> (r: Vec<String>)
        ensures
            label_views(r@) == first_found(self.0@, text@),
            label_views(r@).no_duplicates(),
            label_views(r@).to_set() == labels_for(self.0@, text@),
    {
        self.check(text).labels
    }

    /// The labels of each text, in order. Active rules are picked once, up
    /// front; for each text they run in their order, and each label of a rule
    /// that matches is appended unless the text's list already holds it.
    pub fn assign_labels_vector(&self, texts: &[String]) -> (r: Vec<Vec<String>>)
        ensures
            r@.len() == texts@.len(),
            forall|k: int| 0 <= k < texts@.len() ==> label_views((#[trigger] r@[k])@) == first_found(self.0@, texts@[k]@),
    {
        let rules = &self.0;
        let mut active: Vec<usize> = Vec::new();
        let mut i: usize = 0;
        while i < rules.len()
            invariant
                i <= rules@.len(),
                forall|x: int| 0 <= x < active@.len() ==> (#[trigger] active@[x]) < i && rules@[active@[x] as int].active,
                forall|x: int, y: int| 0 <= x < y < active@.len() ==> active@[x] < active@[y],
                forall|m: int| 0 <= m < i && (#[trigger] rules@[m]).active ==> exists|x: int| 0 <= x < active@.len() && active@[x] == m,
            decreases rules@.len() - i,
        {
            let ghost before = active@;
            if rules[i].active {
                active.push(i);
                assert(active@[active@.len() - 1] == i);
            }
            assert forall|m: int| 0 <= m <= i && (#[trigger] rules@[m]).active implies exists|x: int|
                0 <= x < active@.len() && active@[x] == m by {
                if m < i {
                    let x = choose|x: int| 0 <= x < before.len() && before[x] == m;
                    assert(active@[x] == m);
                } else {
                    assert(active@[active@.len() - 1] == m);
                }
            }
            i = i + 1;
        }
        let mut results: Vec<Vec<String>> = Vec::new();
        let mut t: usize = 0;
        while t < texts.len()
            invariant
                t <= texts@.len(),
                results@.len() == t,
                forall|x: int| 0 <= x < active@.len() ==> (#[trigger] active@[x]) < rules@.len() && rules@[active@[x] as int].active,
                forall|x: int, y: int| 0 <= x < y < active@.len() ==> active@[x] < active@[y],
                forall|m: int| 0 <= m < rules@.len() && (#[trigger] rules@[m]).active ==> exists|x: int| 0 <= x < active@.len() && active@[x] == m,
                forall|j: int| 0 <= j < t ==> label_views((#[trigger] results@[j])@) == first_found(rules@, texts@[j]@),
            decreases texts@.len() - t,
        {
            let text = texts[t].as_str();
            let mut labels: Vec<String> = Vec::new();
            let ghost mut pos: int = 0;
            assert(label_views(labels@) =~= first_found(rules@.take(0), text@));
            let mut j: usize = 0;
            while j < active.len()
                invariant
                    j <= active@.len(),
                    forall|x: int| 0 <= x < active@.len() ==> (#[trigger] active@[x]) < rules@.len() && rules@[active@[x] as int].active,
                    forall|x: int, y: int| 0 <= x < y < active@.len() ==> active@[x] < active@[y],
                    forall|m: int| 0 <= m < rules@.len() && (#[trigger] rules@[m]).active ==> exists|x: int| 0 <= x < active@.len() && active@[x] == m,
                    pos == (if j == 0 { 0 } else { active@[j - 1] + 1 }),
                    0 <= pos <= rules@.len(),
                    forall|x: int| j <= x < active@.len() ==> pos <= #[trigger] active@[x],
                    label_views(labels@) == first_found(rules@.take(pos), text@),
                decreases active@.len() - j,
            {
                let ri = active[j];
                let rule = &rules[ri];
                proof {
                    assert forall|m: int| pos <= m < ri implies !(#[trigger] rules@[m]).active by {
                        if rules@[m].active {
                            let x = choose|x: int| 0 <= x < active@.len() && active@[x] == m;
                            if x < j {
                                assert(active@[x] <= active@[j - 1]);
                            } else if x > j {
                                assert(active@[j as int] < active@[x]);
                            }
                        }
                    }
                    lemma_skip_inactive(rules@, pos, ri as int, text@);
                    lemma_first_found_step(rules@, ri as int, text@);
                }
                let ghost before = labels@;
                if !contains_label(&labels, &rule.label) && rule.rule.check(text) {
                    labels.push(rule.label.clone());
                    assert(label_views(labels@) =~= label_views(before).push(rule.label@));
                }
                proof {
                    pos = ri + 1;
                }
                j = j + 1;
            }
            proof {
                assert forall|m: int| pos <= m < rules@.len() implies !(#[trigger] rules@[m]).active by {
                    if rules@[m].active {
                        let x = choose|x: int| 0 <= x < active@.len() && active@[x] == m;
                        if j > 0 {
                            assert(active@[x] <= active@[j - 1]);
                        }
                    }
                }
                lemma_skip_inactive(rules@, pos, rules@.len() as int, text@);
                assert(rules@.take(rules@.len() as int) == rules@);
            }
            results.push(labels);
            t = t + 1;
        }
        results
    }
}

/// A rule whose all-of and any-of groups are both non-empty makes its whole
/// box invalid: compiling it, or building a box from it, fails.
pub proof fn lemma_and_with_or_rejected(rule_box: RuleBox, k: int)
    requires
        0 <= k < rule_box.0@.len(),
        rule_box.0@[k].rule.and_patterns@.len() > 0,
        rule_box.0@[k].rule.or_patterns@.len() > 0,
    ensures
        !rule_box.is_valid(),
{
    assert(!rule_box.0@[k].rule.well_shaped());
}

/// Evaluation is repeatable: two evaluations of one rule box on one text, as
/// `RuleBox::check` describes them, give the same labels in the same order.
pub proof fn lemma_check_repeatable(rule_box: RuleBox, text: Seq<char>, first: LabeledText, second: LabeledText)
    requires
        first.labels_view() == first_found(rule_box.0@, text),
        second.labels_view() == first_found(rule_box.0@, text),
    ensures
        first.labels_view() == second.labels_view(),
        first.labels_view().to_set() == second.labels_view().to_set(),
{
}

/// The single-text and the batch path agree: for each text the batch list
/// holds each label once, and exactly the labels of the single-text result.
pub proof fn lemma_batch_agrees_with_single(rule_box: RuleBox, text: Seq<char>)
    ensures
        first_found(rule_box.0@, text).no_duplicates(),
        first_found(rule_box.0@, text).to_set() == labels_for(rule_box.0@, text),
{
    lemma_first_found(rule_box.0@, text);
    assert(first_found(rule_box.0@, text).to_set() =~= labels_for(rule_box.0@, text));
}

} // verus!
