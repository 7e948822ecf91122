use vstd::prelude::*;
use vstd::string::*;

use crate::css::{Rule, Selector, Specificity};
use crate::dom::ElementData;
use crate::text::same_text;

verus! {

/// Whether `selector` matches `elem`: the tag, if the selector names one, is
/// the element's; the id, if it names one, is the element's; and every class
/// it names is one of the element's.
pub open spec fn selector_matches(elem: ElementData, selector: Selector) -> bool {
    &&& (selector.tag_name matches Some(tag) ==> tag@ == elem.tag_name@)
    &&& (selector.id matches Some(id) ==> elem.spec_id() == Some(id@))
    &&& forall|k: int|
        0 <= k < selector.classes.len() ==> elem.spec_has_class((#[trigger] selector.classes[k])@)
}

/// Tells whether `selector` matches `elem`.
pub fn matches(elem: &ElementData, selector: &Selector) -> (r: bool)
    ensures
        r == selector_matches(*elem, *selector),
{
    if let Some(tag) = &selector.tag_name {
        if !same_text(tag.as_str(), elem.tag_name.as_str()) {
            return false;
        }
    }
    if let Some(id) = &selector.id {
        match elem.id() {
            Some(own) => {
                if !same_text(own.as_str(), id.as_str()) {
                    return false;
                }
            },
            None => {
                return false;
            },
        }
    }
    let mut k: usize = 0;
    while k < selector.classes.len()
        invariant
            k <= selector.classes.len(),
            forall|j: int| 0 <= j < k ==> elem.spec_has_class((#[trigger] selector.classes[j])@),
        decreases selector.classes.len() - k,
    {
        if !elem.has_class(selector.classes[k].as_str()) {
            return false;
        }
        k = k + 1;
    }
    true
}

/// The stronger of two specificities.
pub open spec fn stronger(a: Specificity, b: Specificity) -> Specificity {
    if b.spec_outranks(a) {
        b
    } else {
        a
    }
}

/// The specificity with which a rule with these selectors applies to `elem`:
/// that of the strongest selector that matches, if one does.
pub open spec fn best_match(elem: ElementData, selectors: Seq<Selector>) -> Option<Specificity>
    decreases selectors.len(),
{
    if selectors.len() == 0 {
        None
    } else {
        let rest = best_match(elem, selectors.drop_last());
        let last = selectors.last();
        if selector_matches(elem, last) {
            match rest {
                Some(s) => Some(stronger(s, last.spec_specificity())),
                None => Some(last.spec_specificity()),
            }
        } else {
            rest
        }
    }
}

/// A rule applies exactly if one of its selectors matches, and then with the
/// specificity of a matching selector that no matching selector outranks.
pub proof fn lemma_best_match(elem: ElementData, selectors: Seq<Selector>)
    ensures
        best_match(elem, selectors) is Some <==> exists|k: int|
            0 <= k < selectors.len() && selector_matches(elem, #[trigger] selectors[k]),
        best_match(elem, selectors) matches Some(s) ==> {
            &&& exists|k: int|
                0 <= k < selectors.len() && selector_matches(elem, #[trigger] selectors[k])
                    && selectors[k].spec_specificity() == s
            &&& forall|k: int|
                0 <= k < selectors.len() && selector_matches(elem, #[trigger] selectors[k])
                    ==> !selectors[k].spec_specificity().spec_outranks(s)
        },
    decreases selectors.len(),
{
    if selectors.len() > 0 {
        let front = selectors.drop_last();
        let last = selectors.last();
        lemma_best_match(elem, front);
        assert forall|k: int| 0 <= k < front.len() implies front[k] == selectors[k] by {}
        if selector_matches(elem, last) {
            assert(selectors[selectors.len() - 1] == last);
        }
        match best_match(elem, selectors) {
            Some(s) => {
                if selector_matches(elem, last) && s == last.spec_specificity() {
                    assert(selector_matches(elem, selectors[selectors.len() - 1]));
                } else {
                    let k = choose|k: int|
                        0 <= k < front.len() && selector_matches(elem, #[trigger] front[k])
                            && front[k].spec_specificity() == s;
                    assert(selector_matches(elem, selectors[k]));
                }
            },
            None => {},
        }
    }
}

/// The specificity with which `rule` applies to `elem`, if it applies.
pub fn match_rule(elem: &ElementData, rule: &Rule) -> (r: Option<Specificity>)
    ensures
        r == best_match(*elem, rule.selectors@),
{
    let mut best: Option<Specificity> = None;
    let mut k: usize = 0;
    assert(rule.selectors@.take(0) =~= Seq::<Selector>::empty());
    while k < rule.selectors.len()
        invariant
            k <= rule.selectors.len(),
            best == best_match(*elem, rule.selectors@.take(k as int)),
        decreases rule.selectors.len() - k,
    {
        assert(rule.selectors@.take(k + 1).drop_last() =~= rule.selectors@.take(k as int));
        if matches(elem, &rule.selectors[k]) {
            let s = rule.selectors[k].specificity();
            best = match best {
                Some(b) => if s.outranks(b) { Some(s) } else { Some(b) },
                None => Some(s),
            };
        }
        k = k + 1;
    }
    assert(rule.selectors@.take(k as int) =~= rule.selectors@);
    best
}

} // verus!
