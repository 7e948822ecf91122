use vstd::prelude::*;
use vstd::string::*;

verus! {

/// A simple selector: each part that is present must hold of an element for
/// the selector to match it.
#[derive(Debug)]
pub struct Selector {
    pub tag_name: Option<String>,
    pub id: Option<String>,
    pub classes: Vec<String>,
}

/// How strongly a selector binds: whether it names an id, how many distinct
/// classes it names, whether it names a tag. Compared in that order.
#[derive(Clone, Copy, Debug, PartialEq, Eq, Structural)]
pub struct Specificity {
    pub ids: usize,
    pub classes: usize,
    pub tags: usize,
}

/// One `name: value` pair of a rule.
#[derive(Debug)]
pub struct Declaration {
    pub name: String,
    pub value: String,
}

/// A rule: it applies to the elements that one of its selectors matches.
/// Its declarations are kept in the order they were written.
#[derive(Debug)]
pub struct Rule {
    pub selectors: Vec<Selector>,
    pub declarations: Vec<Declaration>,
    pub source_index: usize,
}

/// The rules of a stylesheet, in the order they were written.
#[derive(Debug)]
pub struct Stylesheet {
    pub rules: Vec<Rule>,
}

impl Specificity {
    /// Whether `self` is strictly stronger than `other`.
    pub open spec fn spec_outranks(self, other: Specificity) -> bool {
        ||| self.ids > other.ids
        ||| (self.ids == other.ids && self.classes > other.classes)
        ||| (self.ids == other.ids && self.classes == other.classes && self.tags > other.tags)
    }

    #[verifier::when_used_as_spec(spec_outranks)]
    pub fn outranks(self, other: Specificity) -> (r: bool)
        ensures
            r == self.spec_outranks(other),
    {
        self.ids > other.ids || (self.ids == other.ids && (self.classes > other.classes || (
        self.classes == other.classes && self.tags > other.tags)))
    }
}

/// The names of a list of classes.
pub open spec fn names_of(classes: Seq<String>) -> Seq<Seq<char>> {
    classes.map_values(|c: String| c@)
}

impl Selector {
    /// The classes that the selector names, as a set.
    pub open spec fn class_set(&self) -> Set<Seq<char>> {
        names_of(self.classes@).to_set()
    }

    pub open spec fn spec_specificity(&self) -> Specificity {
        Specificity {
            ids: if self.id is Some { 1 } else { 0 },
            classes: self.class_set().len() as usize,
            tags: if self.tag_name is Some { 1 } else { 0 },
        }
    }

    pub fn specificity(&self) -> (s: Specificity)
        ensures
            s == self.spec_specificity(),
    {
        let ids: usize = if self.id.is_some() { 1 } else { 0 };
        let tags: usize = if self.tag_name.is_some() { 1 } else { 0 };
        let ghost names = names_of(self.classes@);
        let mut count: usize = 0;
        let mut i: usize = 0;
        assert(names.take(0).to_set() =~= Set::<Seq<char>>::empty());
        while i < self.classes.len()
            invariant
                i <= self.classes.len(),
                names == names_of(self.classes@),
                count <= i,
                count == names.take(i as int).to_set().len(),
            decreases self.classes.len() - i,
        {
            let mut seen = false;
            let mut j: usize = 0;
            while j < i
                invariant
                    j <= i < self.classes.len(),
                    names == names_of(self.classes@),
                    seen == exists|k: int| 0 <= k < j && names[k] == names[i as int],
                decreases i - j,
            {
                if self.classes[j] == self.classes[i] {
                    assert(names[j as int] == names[i as int]);
                    seen = true;
                }
                j = j + 1;
            }
            proof {
                let before = names.take(i as int);
                let x = names[i as int];
                assert(names.take(i + 1) =~= before.push(x));
                assert(before.push(x).to_set() =~= before.to_set().insert(x)) by {
                    assert forall|a: Seq<char>| before.push(x).to_set().contains(a)
                        == before.to_set().insert(x).contains(a) by {
                        if before.push(x).contains(a) {
                            let k = choose|k: int| 0 <= k < before.push(x).len() && before.push(x)[k] == a;
                            if k < before.len() {
                                assert(before[k] == a);
                            }
                        }
                        if before.contains(a) {
                            let k = choose|k: int| 0 <= k < before.len() && before[k] == a;
                            assert(before.push(x)[k] == a);
                        }
                        if a == x {
                            assert(before.push(x)[before.len() as int] == a);
                        }
                    }
                }
                vstd::seq_lib::seq_to_set_is_finite(before);
                if seen {
                    let k = choose|k: int| 0 <= k < i && names[k] == names[i as int];
                    assert(before[k] == x);
                    assert(before.to_set().contains(x));
                } else {
                    if before.to_set().contains(x) {
                        let k = choose|k: int| 0 <= k < before.len() && before[k] == x;
                        assert(names[k] == names[i as int]);
                    }
                }
            }
            if !seen {
                count = count + 1;
            }
            i = i + 1;
        }
        assert(names.take(self.classes.len() as int) =~= names);
        Specificity { ids, classes: count, tags }
    }
}

/// A selector that names an id outranks every selector that names none.
/// Among the selectors that name no id, one that names a class outranks
/// every one that names none, whether or not that one names a tag.
pub proof fn lemma_selector_ranks(with_id: Selector, with_classes: Selector, with_tag: Selector)
    requires
        with_id.id is Some,
        with_classes.id is None,
        with_classes.classes.len() > 0,
        with_tag.id is None,
        with_tag.classes.len() == 0,
    ensures
        with_id.spec_specificity().spec_outranks(with_classes.spec_specificity()),
        with_id.spec_specificity().spec_outranks(with_tag.spec_specificity()),
        with_classes.spec_specificity().spec_outranks(with_tag.spec_specificity()),
{
    let names = names_of(with_classes.classes@);
    names.lemma_cardinality_of_set();
    vstd::seq_lib::seq_to_set_is_finite(names);
    assert(names.to_set().contains(names[0]));
    if names.to_set().len() == 0 {
        names.to_set().lemma_len0_is_empty();
    }
    let none = names_of(with_tag.classes@);
    assert(none.to_set() =~= Set::<Seq<char>>::empty());
}

} // verus!
