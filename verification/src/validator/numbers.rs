//! What a validation needs to know of numbers: how two numeric texts
//! compare, and how a number of a rule is shown. Numbers are compared as
//! binary floating point, with `==` meaning a difference below the machine
//! epsilon; that arithmetic is done by the caller, and the validator takes
//! its outcome as given facts.
use vstd::prelude::*;

use crate::ast::Comparator;
use crate::text::str_eq;

verus! {

/// The outcome of comparing two numbers under each comparator.
#[derive(Debug, Clone, Copy, PartialEq, Eq, Structural)]
pub struct NumberRelation {
    pub gte: bool,
    pub lte: bool,
    pub gt: bool,
    pub lt: bool,
    pub eq: bool,
    pub neq: bool,
}

pub open spec fn relation_holds(r: NumberRelation, c: Comparator) -> bool {
    match c {
        Comparator::Gte => r.gte,
        Comparator::Lte => r.lte,
        Comparator::Gt => r.gt,
        Comparator::Lt => r.lt,
        Comparator::Eq => r.eq,
        Comparator::Neq => r.neq,
    }
}

/// Each comparator reads its own outcome of the comparison: `>=` the
/// greater-or-equal outcome, `<=` the less-or-equal one, `>` greater-than,
/// `<` less-than, `==` equal and `!=` different; so a comparison `l < r`
/// holds exactly when `l` is below `r`.
pub proof fn lemma_comparators_read_their_outcome(r: NumberRelation)
    ensures
        relation_holds(r, Comparator::Gte) == r.gte,
        relation_holds(r, Comparator::Lte) == r.lte,
        relation_holds(r, Comparator::Gt) == r.gt,
        relation_holds(r, Comparator::Lt) == r.lt,
        relation_holds(r, Comparator::Eq) == r.eq,
        relation_holds(r, Comparator::Neq) == r.neq,
{
}

/// A comparison of two numeric texts holds exactly when the facts know
/// both as numbers and record that outcome for that comparator.
pub proof fn lemma_number_comparison_reads_facts(
    facts: NumberFactsView,
    l: Seq<char>,
    r: Seq<char>,
    rel: NumberRelation,
)
    requires
        pair_fact(facts.pairs, l, r) == Some(Some(rel)),
    ensures
        spec_compare_numbers(facts, l, Comparator::Lt, r) == rel.lt,
        spec_compare_numbers(facts, l, Comparator::Gt, r) == rel.gt,
        spec_compare_numbers(facts, l, Comparator::Lte, r) == rel.lte,
        spec_compare_numbers(facts, l, Comparator::Gte, r) == rel.gte,
        spec_compare_numbers(facts, l, Comparator::Eq, r) == rel.eq,
        spec_compare_numbers(facts, l, Comparator::Neq, r) == rel.neq,
{
}

/// Whether `c` holds in `r`.
pub fn holds(r: NumberRelation, c: Comparator) -> (b: bool)
    ensures
        b == relation_holds(r, c),
{
    match c {
        Comparator::Gte => r.gte,
        Comparator::Lte => r.lte,
        Comparator::Gt => r.gt,
        Comparator::Lt => r.lt,
        Comparator::Eq => r.eq,
        Comparator::Neq => r.neq,
    }
}

/// Facts about numbers: for pairs of texts, how the numbers they write
/// compare (`None` when one of the two is no number); for the numbers of
/// rules, the text that shows them.
pub struct NumberFacts {
    pairs: Vec<(String, String, Option<NumberRelation>)>,
    shown: Vec<(String, String)>,
}

/// The model of the facts: the entries in the order they were given.
pub struct NumberFactsView {
    pub pairs: Seq<(Seq<char>, Seq<char>, Option<NumberRelation>)>,
    pub shown: Seq<(Seq<char>, Seq<char>)>,
}

impl View for NumberFacts {
    type V = NumberFactsView;

    closed spec fn view(&self) -> NumberFactsView {
        NumberFactsView {
            pairs: self.pairs@.map_values(
                |e: (String, String, Option<NumberRelation>)| (e.0@, e.1@, e.2),
            ),
            shown: self.shown@.map_values(|e: (String, String)| (e.0@, e.1@)),
        }
    }
}

/// The last fact given for the pair `(l, r)`, if any.
pub open spec fn pair_fact(
    pairs: Seq<(Seq<char>, Seq<char>, Option<NumberRelation>)>,
    l: Seq<char>,
    r: Seq<char>,
) -> Option<Option<NumberRelation>>
    decreases pairs.len(),
{
    if pairs.len() == 0 {
        None
    } else if pairs.last().0 == l && pairs.last().1 == r {
        Some(pairs.last().2)
    } else {
        pair_fact(pairs.drop_last(), l, r)
    }
}

/// How the numbers written `l` and `r` compare under `c`: false unless both
/// are numbers known to stand in that relation.
pub open spec fn spec_compare_numbers(
    facts: NumberFactsView,
    l: Seq<char>,
    c: Comparator,
    r: Seq<char>,
) -> bool {
    match pair_fact(facts.pairs, l, r) {
        Some(Some(rel)) => relation_holds(rel, c),
        _ => false,
    }
}

/// The text that shows the number written `lit`: the last one given, or
/// `lit` itself.
pub open spec fn shown_number(shown: Seq<(Seq<char>, Seq<char>)>, lit: Seq<char>) -> Seq<char>
    decreases shown.len(),
{
    if shown.len() == 0 {
        lit
    } else if shown.last().0 == lit {
        shown.last().1
    } else {
        shown_number(shown.drop_last(), lit)
    }
}

impl NumberFacts {
    /// No facts.
    pub fn new() -> (f: Self)
        ensures
            f@.pairs == Seq::<(Seq<char>, Seq<char>, Option<NumberRelation>)>::empty(),
            f@.shown == Seq::<(Seq<char>, Seq<char>)>::empty(),
    {
        let f = NumberFacts { pairs: Vec::new(), shown: Vec::new() };
        assert(f@.pairs =~= Seq::<(Seq<char>, Seq<char>, Option<NumberRelation>)>::empty());
        assert(f@.shown =~= Seq::<(Seq<char>, Seq<char>)>::empty());
        f
    }

    /// Records how the numbers written `l` and `r` compare (`None` when one
    /// of them is no number).
    pub fn add_pair(&mut self, l: String, r: String, relation: Option<NumberRelation>)
        ensures
            final(self)@.pairs == old(self)@.pairs.push((l@, r@, relation)),
            final(self)@.shown == old(self)@.shown,
    {
        let ghost before = self@;
        let ghost entry = (l@, r@, relation);
        self.pairs.push((l, r, relation));
        assert(self@.pairs =~= before.pairs.push(entry));
        assert(self@.shown =~= before.shown);
    }

    /// Records the text that shows the number written `lit`.
    pub fn add_shown(&mut self, lit: String, text: String)
        ensures
            final(self)@.shown == old(self)@.shown.push((lit@, text@)),
            final(self)@.pairs == old(self)@.pairs,
    {
        let ghost before = self@;
        let ghost entry = (lit@, text@);
        self.shown.push((lit, text));
        assert(self@.shown =~= before.shown.push(entry));
        assert(self@.pairs =~= before.pairs);
    }

    /// The last fact given for the pair `(l, r)`.
    pub fn pair(&self, l: &str, r: &str) -> (f: Option<Option<NumberRelation>>)
        ensures
            f == pair_fact(self@.pairs, l@, r@),
    {
        let ghost ps = self@.pairs;
        let mut i = self.pairs.len();
        assert(ps.take(i as int) =~= ps);
        while i > 0
            invariant
                i <= self.pairs.len(),
                ps == self@.pairs,
                pair_fact(ps, l@, r@) == pair_fact(ps.take(i as int), l@, r@),
            decreases i,
        {
            let e = &self.pairs[i - 1];
            assert(ps.take(i as int).last() == ps[i - 1]);
            assert(ps.take(i as int).drop_last() =~= ps.take(i - 1));
            if str_eq(e.0.as_str(), l) && str_eq(e.1.as_str(), r) {
                return Some(e.2);
            }
            i = i - 1;
        }
        None
    }

    /// The text that shows the number written `lit`.
    pub fn shown(&self, lit: &str) -> (t: String)
        ensures
            t@ == shown_number(self@.shown, lit@),
    {
        let ghost ss = self@.shown;
        let mut i = self.shown.len();
        assert(ss.take(i as int) =~= ss);
        while i > 0
            invariant
                i <= self.shown.len(),
                ss == self@.shown,
                shown_number(ss, lit@) == shown_number(ss.take(i as int), lit@),
            decreases i,
        {
            let e = &self.shown[i - 1];
            assert(ss.take(i as int).last() == ss[i - 1]);
            assert(ss.take(i as int).drop_last() =~= ss.take(i - 1));
            if str_eq(e.0.as_str(), lit) {
                return e.1.clone();
            }
            i = i - 1;
        }
        String::from_str(lit)
    }
}

} // verus!
