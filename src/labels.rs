//! Label lists: duplicate-free lists of label strings, and the list of labels
//! that an ordered sequence of rules assigns to a text.
use vstd::prelude::*;
use crate::engine::LabelRule;

verus! {

/// The character sequences of a list of strings.
pub open spec fn label_views(v: Seq<String>) -> Seq<Seq<char>> {
    v.map_values(|s: String| s@)
}

/// `ls` with `l` appended, unless `ls` already holds it.
pub open spec fn add_label(ls: Seq<Seq<char>>, l: Seq<char>) -> Seq<Seq<char>> {
    if ls.contains(l) {
        ls
    } else {
        ls.push(l)
    }
}

/// The labels of the active rules of `rules` that match `text`, each once, in
/// the order in which the rules first yield them.
pub open spec fn first_found(rules: Seq<LabelRule>, text: Seq<char>) -> Seq<Seq<char>>
    decreases rules.len(),
{
    if rules.len() == 0 {
        seq![]
    } else {
        let before = first_found(rules.drop_last(), text);
        let last = rules.last();
        if last.fires(text) {
            add_label(before, last.label@)
        } else {
            before
        }
    }
}

/// The set of labels of the active rules of `rules` that match `text`.
pub open spec fn labels_for(rules: Seq<LabelRule>, text: Seq<char>) -> Set<Seq<char>> {
    Set::new(|l: Seq<char>| exists|k: int| 0 <= k < rules.len() && (#[trigger] rules[k]).fires(text) && rules[k].label@ == l)
}

/// Whether `labels` holds a string equal to `l`.
pub(crate) fn contains_label(labels: &Vec<String>, l: &String) -> (r: bool)
    ensures
        r == label_views(labels@).contains(l@),
{
    let mut k: usize = 0;
    while k < labels.len()
        invariant
            k <= labels@.len(),
            forall|j: int| 0 <= j < k ==> (#[trigger] labels@[j])@ != l@,
        decreases labels@.len() - k,
    {
        if labels[k] == *l {
            assert(label_views(labels@)[k as int] == l@);
            return true;
        }
        k = k + 1;
    }
    assert forall|j: int| 0 <= j < label_views(labels@).len() implies label_views(labels@)[j] != l@ by {
        assert(labels@[j]@ != l@);
    }
    false
}

/// Appends `l` to `labels` unless it is already there.
pub(crate) fn push_label(labels: &mut Vec<String>, l: &String)
    ensures
        label_views(final(labels)@) == add_label(label_views(old(labels)@), l@),
{
    if !contains_label(labels, l) {
        labels.push(l.clone());
        assert(label_views(labels@) =~= label_views(old(labels)@).push(l@));
    }
}

/// Adding a label keeps a list free of duplicates, and adds exactly that label.
pub proof fn lemma_add_label(ls: Seq<Seq<char>>, l: Seq<char>)
    requires
        ls.no_duplicates(),
    ensures
        add_label(ls, l).no_duplicates(),
        forall|m: Seq<char>| #[trigger] add_label(ls, l).contains(m) <==> ls.contains(m) || m == l,
{
    if !ls.contains(l) {
        let r = ls.push(l);
        assert forall|m: Seq<char>| #[trigger] r.contains(m) <==> ls.contains(m) || m == l by {
            if r.contains(m) {
                let k = choose|k: int| 0 <= k < r.len() && r[k] == m;
                if k < ls.len() {
                    assert(ls[k] == m);
                }
            }
            if ls.contains(m) {
                let k = choose|k: int| 0 <= k < ls.len() && ls[k] == m;
                assert(r[k] == m);
            }
            if m == l {
                assert(r[ls.len() as int] == m);
            }
        }
    }
}

/// The first-found list of labels holds each label once, and holds exactly
/// the labels of the active rules that match the text.
pub proof fn lemma_first_found(rules: Seq<LabelRule>, text: Seq<char>)
    ensures
        first_found(rules, text).no_duplicates(),
        forall|l: Seq<char>| #[trigger] first_found(rules, text).contains(l) <==> labels_for(rules, text).contains(l),
    decreases rules.len(),
{
    if rules.len() > 0 {
        let prefix = rules.drop_last();
        let last = rules.last();
        lemma_first_found(prefix, text);
        let before = first_found(prefix, text);
        if last.fires(text) {
            lemma_add_label(before, last.label@);
        }
        assert forall|l: Seq<char>| #[trigger] first_found(rules, text).contains(l) <==> labels_for(rules, text).contains(l) by {
            if labels_for(prefix, text).contains(l) {
                let k = choose|k: int| 0 <= k < prefix.len() && (#[trigger] prefix[k]).fires(text) && prefix[k].label@ == l;
                assert(rules[k] == prefix[k]);
            }
            if labels_for(rules, text).contains(l) {
                let k = choose|k: int| 0 <= k < rules.len() && (#[trigger] rules[k]).fires(text) && rules[k].label@ == l;
                if k < prefix.len() {
                    assert(prefix[k] == rules[k]);
                    assert(labels_for(prefix, text).contains(l));
                }
            }
            if last.fires(text) && l == last.label@ {
                assert(rules[rules.len() - 1] == last);
            }
        }
    }
}

/// Rules that are not active change nothing: the first-found list of a prefix
/// stays the same across a run of inactive rules.
pub proof fn lemma_skip_inactive(rules: Seq<LabelRule>, a: int, b: int, text: Seq<char>)
    requires
        0 <= a <= b <= rules.len(),
        forall|m: int| a <= m < b ==> !(#[trigger] rules[m]).active,
    ensures
        first_found(rules.take(b), text) == first_found(rules.take(a), text),
    decreases b - a,
{
    if b > a {
        assert(rules.take(b).drop_last() == rules.take(b - 1));
        assert(!rules[b - 1].active);
        lemma_skip_inactive(rules, a, b - 1, text);
    }
}

/// An inactive rule contributes nothing, whether or not its combinator would
/// match: without it, both the first-found list and the set of labels are
/// the same.
pub proof fn lemma_inactive_rule_contributes_nothing(rules: Seq<LabelRule>, k: int, text: Seq<char>)
    requires
        0 <= k < rules.len(),
        !rules[k].active,
    ensures
        first_found(rules.remove(k), text) == first_found(rules, text),
        labels_for(rules.remove(k), text) == labels_for(rules, text),
    decreases rules.len(),
{
    let rest = rules.remove(k);
    if k == rules.len() - 1 {
        assert(rest == rules.drop_last());
    } else {
        assert(rest.drop_last() == rules.drop_last().remove(k));
        assert(rest.last() == rules.last());
        lemma_inactive_rule_contributes_nothing(rules.drop_last(), k, text);
    }
    assert forall|l: Seq<char>| labels_for(rest, text).contains(l) == labels_for(rules, text).contains(l) by {
        if labels_for(rest, text).contains(l) {
            let j = choose|j: int| 0 <= j < rest.len() && (#[trigger] rest[j]).fires(text) && rest[j].label@ == l;
            if j < k {
                assert(rules[j] == rest[j]);
            } else {
                assert(rules[j + 1] == rest[j]);
            }
        }
        if labels_for(rules, text).contains(l) {
            let j = choose|j: int| 0 <= j < rules.len() && (#[trigger] rules[j]).fires(text) && rules[j].label@ == l;
            if j < k {
                assert(rest[j] == rules[j]);
            } else {
                assert(j != k);
                assert(rest[j - 1] == rules[j]);
            }
        }
    }
    assert(labels_for(rest, text) =~= labels_for(rules, text));
}

/// One rule more: the first-found list of the next prefix.
pub proof fn lemma_first_found_step(rules: Seq<LabelRule>, i: int, text: Seq<char>)
    requires
        0 <= i < rules.len(),
    ensures
        first_found(rules.take(i + 1), text) == (if rules[i].fires(text) {
            add_label(first_found(rules.take(i), text), rules[i].label@)
        } else {
            first_found(rules.take(i), text)
        }),
{
    assert(rules.take(i + 1).drop_last() == rules.take(i));
    assert(rules.take(i + 1).last() == rules[i]);
}

} // verus!
