use vstd::prelude::*;
use vstd::string::*;

use crate::css::{Declaration, Specificity, Stylesheet};
use crate::dom::ElementData;
use crate::matching::{best_match, match_rule};
use crate::properties::PropertyMap;

verus! {

/// A rule that applies to an element: the specificity with which it applies,
/// its source index, and its place in the stylesheet.
#[derive(Clone, Copy, Debug, PartialEq, Eq, Structural)]
pub struct MatchedRule {
    pub specificity: Specificity,
    pub source_index: usize,
    pub rule: usize,
}

impl MatchedRule {
    /// Whether `self` is applied earlier than `other`, so that `other`
    /// overrides it: rules are applied by rising specificity, those of equal
    /// specificity by rising source index, and those that agree in both in
    /// the order of the stylesheet.
    pub open spec fn spec_applied_before(self, other: MatchedRule) -> bool {
        ||| other.specificity.spec_outranks(self.specificity)
        ||| (self.specificity == other.specificity && self.source_index < other.source_index)
        ||| (self.specificity == other.specificity && self.source_index == other.source_index
            && self.rule < other.rule)
    }

    #[verifier::when_used_as_spec(spec_applied_before)]
    pub fn applied_before(self, other: MatchedRule) -> (r: bool)
        ensures
            r == self.spec_applied_before(other),
    {
        if other.specificity.outranks(self.specificity) {
            true
        } else if self.specificity.outranks(other.specificity) {
            false
        } else {
            self.source_index < other.source_index || (self.source_index == other.source_index
                && self.rule < other.rule)
        }
    }
}

/// Whether the rule at index `i` of `sheet` applies to `elem`.
pub open spec fn rule_applies(elem: ElementData, sheet: Stylesheet, i: int) -> bool {
    0 <= i < sheet.rules.len() && best_match(elem, sheet.rules[i].selectors@) is Some
}

/// The rule at index `i` of `sheet`, as it applies to `elem`.
pub open spec fn matched_rule(elem: ElementData, sheet: Stylesheet, i: int) -> MatchedRule {
    MatchedRule {
        specificity: best_match(elem, sheet.rules[i].selectors@).unwrap(),
        source_index: sheet.rules[i].source_index,
        rule: i as usize,
    }
}

/// Whether `d`, a rule's index and the index of a declaration in it, is a
/// declaration of `name` in a rule that applies to `elem`.
pub open spec fn declares(elem: ElementData, sheet: Stylesheet, name: Seq<char>, d: (int, int)) -> bool {
    &&& rule_applies(elem, sheet, d.0)
    &&& 0 <= d.1 < sheet.rules[d.0].declarations.len()
    &&& sheet.rules[d.0].declarations[d.1].name@ == name
}

/// Whether the declaration `d` is overridden by the declaration `e`: `e`
/// stands in a rule that is applied later, or later in the same rule.
pub open spec fn overridden_by(elem: ElementData, sheet: Stylesheet, d: (int, int), e: (int, int)) -> bool {
    ||| matched_rule(elem, sheet, d.0).spec_applied_before(matched_rule(elem, sheet, e.0))
    ||| (d.0 == e.0 && d.1 < e.1)
}

/// Whether `d` declares `name` for `elem` and overrides every other
/// declaration of `name` for it.
pub open spec fn wins(elem: ElementData, sheet: Stylesheet, name: Seq<char>, d: (int, int)) -> bool {
    &&& declares(elem, sheet, name, d)
    &&& forall|e: (int, int)| #[trigger]
        declares(elem, sheet, name, e) && e != d ==> overridden_by(elem, sheet, e, d)
}

/// The properties of `elem` under `sheet`: each name that a rule that applies
/// declares, with the value of the declaration that overrides all others.
pub open spec fn cascaded(elem: ElementData, sheet: Stylesheet) -> Map<Seq<char>, Seq<char>> {
    Map::new(
        |name: Seq<char>| exists|d: (int, int)| declares(elem, sheet, name, d),
        |name: Seq<char>|
            {
                let d = choose|d: (int, int)| wins(elem, sheet, name, d);
                sheet.rules[d.0].declarations[d.1].value@
            },
    )
}

/// The rules of `sheet` that apply to `elem`, in the order of the stylesheet.
pub fn matching_rules(elem: &ElementData, sheet: &Stylesheet) -> (r: Vec<MatchedRule>)
    ensures
        forall|k: int|
            0 <= k < r.len() ==> rule_applies(*elem, *sheet, (#[trigger] r[k]).rule as int) && r[k]
                == matched_rule(*elem, *sheet, r[k].rule as int),
        forall|i: int|
            rule_applies(*elem, *sheet, i) ==> exists|k: int|
                0 <= k < r.len() && (#[trigger] r[k]).rule == i,
        forall|a: int, b: int|
            0 <= a < b < r.len() ==> (#[trigger] r[a]).rule < (#[trigger] r[b]).rule,
{
    let mut r: Vec<MatchedRule> = Vec::new();
    let mut i: usize = 0;
    while i < sheet.rules.len()
        invariant
            i <= sheet.rules.len(),
            forall|k: int|
                0 <= k < r.len() ==> rule_applies(*elem, *sheet, (#[trigger] r[k]).rule as int)
                    && r[k] == matched_rule(*elem, *sheet, r[k].rule as int) && r[k].rule < i,
            forall|j: int|
                0 <= j < i && rule_applies(*elem, *sheet, j) ==> exists|k: int|
                    0 <= k < r.len() && (#[trigger] r[k]).rule == j,
            forall|a: int, b: int|
                0 <= a < b < r.len() ==> (#[trigger] r[a]).rule < (#[trigger] r[b]).rule,
        decreases sheet.rules.len() - i,
    {
        let ghost before = r@;
        match match_rule(elem, &sheet.rules[i]) {
            Some(specificity) => {
                r.push(
                    MatchedRule { specificity, source_index: sheet.rules[i].source_index, rule: i },
                );
                assert(r[before.len() as int].rule == i);
            },
            None => {},
        }
        assert forall|j: int| 0 <= j < i + 1 && rule_applies(*elem, *sheet, j) implies exists|k: int|
            0 <= k < r.len() && (#[trigger] r[k]).rule == j by {
            if j < i {
                let k = choose|k: int| 0 <= k < before.len() && (#[trigger] before[k]).rule == j;
                assert(r[k].rule == j);
            } else {
                assert(r[before.len() as int].rule == j);
            }
        }
        i = i + 1;
    }
    r
}

/// Whether the rules of `s` stand in the order in which they are applied.
pub open spec fn in_cascade_order(s: Seq<MatchedRule>) -> bool {
    forall|a: int, b: int|
        0 <= a < b < s.len() ==> (#[trigger] s[a]).spec_applied_before(#[trigger] s[b])
}

proof fn lemma_applied_before_transitive(a: MatchedRule, b: MatchedRule, c: MatchedRule)
    requires
        a.spec_applied_before(b),
        b.spec_applied_before(c),
    ensures
        a.spec_applied_before(c),
{
}

proof fn lemma_insert_contains<A>(s: Seq<A>, p: int, x: A)
    requires
        0 <= p <= s.len(),
    ensures
        forall|m: A| s.insert(p, x).contains(m) <==> s.contains(m) || m == x,
{
    let t = s.insert(p, x);
    s.insert_ensures(p, x);
    assert forall|m: A| t.contains(m) <==> s.contains(m) || m == x by {
        if t.contains(m) {
            let k = choose|k: int| 0 <= k < t.len() && t[k] == m;
            if k < p {
                assert(s[k] == m);
            } else if k > p {
                assert(s[k - 1] == m);
            }
        }
        if s.contains(m) {
            let k = choose|k: int| 0 <= k < s.len() && s[k] == m;
            if k < p {
                assert(t[k] == m);
            } else {
                assert(t[k + 1] == m);
            }
        }
        if m == x {
            assert(t[p] == m);
        }
    }
}

/// The rules of `matched`, in the order in which they are applied.
fn cascade_order(matched: &Vec<MatchedRule>) -> (r: Vec<MatchedRule>)
    requires
        forall|a: int, b: int|
            0 <= a < b < matched.len() ==> (#[trigger] matched[a]).rule != (#[trigger] matched[b]).rule,
    ensures
        r.len() == matched.len(),
        in_cascade_order(r@),
        forall|m: MatchedRule| r@.contains(m) <==> matched@.contains(m),
{
    let mut out: Vec<MatchedRule> = Vec::new();
    let mut i: usize = 0;
    while i < matched.len()
        invariant
            i <= matched.len(),
            out.len() == i,
            in_cascade_order(out@),
            forall|m: MatchedRule| out@.contains(m) <==> matched@.take(i as int).contains(m),
            forall|a: int, b: int|
                0 <= a < b < matched.len() ==> (#[trigger] matched[a]).rule != (
                #[trigger] matched[b]).rule,
        decreases matched.len() - i,
    {
        let x = matched[i];
        assert forall|a: int| 0 <= a < out.len() implies (#[trigger] out[a]).rule != x.rule by {
            assert(out@.contains(out[a]));
            let k = choose|k: int|
                0 <= k < matched@.take(i as int).len() && matched@.take(i as int)[k] == out[a];
            assert(matched[k].rule != matched[i as int].rule);
        }
        let mut p: usize = 0;
        while p < out.len() && !x.applied_before(out[p])
            invariant
                p <= out.len(),
                forall|a: int| 0 <= a < out.len() ==> (#[trigger] out[a]).rule != x.rule,
                forall|a: int| 0 <= a < p ==> (#[trigger] out[a]).spec_applied_before(x),
            decreases out.len() - p,
        {
            p = p + 1;
        }
        let ghost before = out@;
        out.insert(p, x);
        proof {
            before.insert_ensures(p as int, x);
            assert forall|a: int, b: int| 0 <= a < b < out.len() implies (
            #[trigger] out[a]).spec_applied_before(#[trigger] out[b]) by {
                if b < p {
                    assert(before[a].spec_applied_before(before[b]));
                } else if b == p {
                    assert(before[a].spec_applied_before(x));
                } else if a < p {
                    assert(before[a].spec_applied_before(before[b - 1]));
                } else if a == p {
                    assert(x.spec_applied_before(before[p as int]));
                    if b - 1 > p {
                        assert(before[p as int].spec_applied_before(before[b - 1]));
                        lemma_applied_before_transitive(x, before[p as int], before[b - 1]);
                    }
                } else {
                    assert(before[a - 1].spec_applied_before(before[b - 1]));
                }
            }
            lemma_insert_contains(before, p as int, x);
            assert(matched@.take(i + 1) =~= matched@.take(i as int).push(x));
            assert forall|m: MatchedRule| out@.contains(m) <==> matched@.take(i + 1).contains(
                m,
            ) by {
                vstd::seq_lib::lemma_seq_contains_after_push(matched@.take(i as int), x, m);
                assert(out@ == before.insert(p as int, x));
                assert(before.insert(p as int, x).contains(m) <==> before.contains(m) || m == x);
                assert(before.contains(m) <==> matched@.take(i as int).contains(m));
            }
        }
        i = i + 1;
    }
    assert(matched@.take(i as int) =~= matched@);
    out
}

/// `m`, after the declarations `decls` were entered in it one after another.
spec fn apply_declarations(
    m: Map<Seq<char>, Seq<char>>,
    decls: Seq<Declaration>,
) -> Map<Seq<char>, Seq<char>>
    decreases decls.len(),
{
    if decls.len() == 0 {
        m
    } else {
        apply_declarations(m, decls.drop_last()).insert(decls.last().name@, decls.last().value@)
    }
}

spec fn decls_of(sheet: Stylesheet, order: Seq<MatchedRule>, k: int) -> Seq<Declaration> {
    sheet.rules[order[k].rule as int].declarations@
}

spec fn applied_name(sheet: Stylesheet, order: Seq<MatchedRule>, k: int, j: int) -> Seq<char> {
    decls_of(sheet, order, k)[j].name@
}

/// The empty map, after the declarations of the rules of `order` were entered
/// in it, rule after rule.
spec fn apply_rules(sheet: Stylesheet, order: Seq<MatchedRule>) -> Map<Seq<char>, Seq<char>>
    decreases order.len(),
{
    if order.len() == 0 {
        Map::empty()
    } else {
        apply_declarations(
            apply_rules(sheet, order.drop_last()),
            decls_of(sheet, order, order.len() - 1),
        )
    }
}

/// The index of the last declaration of `name` in `decls`.
spec fn last_in(decls: Seq<Declaration>, name: Seq<char>) -> Option<int>
    decreases decls.len(),
{
    if decls.len() == 0 {
        None
    } else if decls.last().name@ == name {
        Some(decls.len() - 1)
    } else {
        last_in(decls.drop_last(), name)
    }
}

/// The last declaration of `name` among those of the rules of `order`: the
/// index of its rule in `order` and its own index in that rule.
spec fn last_applied(sheet: Stylesheet, order: Seq<MatchedRule>, name: Seq<char>) -> Option<(int, int)>
    decreases order.len(),
{
    if order.len() == 0 {
        None
    } else {
        match last_in(decls_of(sheet, order, order.len() - 1), name) {
            Some(j) => Some((order.len() - 1, j)),
            None => last_applied(sheet, order.drop_last(), name),
        }
    }
}

proof fn lemma_last_in(decls: Seq<Declaration>, name: Seq<char>)
    ensures
        match last_in(decls, name) {
            Some(j) => {
                &&& 0 <= j < decls.len()
                &&& decls[j].name@ == name
                &&& forall|j2: int| j < j2 < decls.len() ==> (#[trigger] decls[j2]).name@ != name
            },
            None => forall|j2: int| 0 <= j2 < decls.len() ==> (#[trigger] decls[j2]).name@ != name,
        },
    decreases decls.len(),
{
    if decls.len() > 0 && decls.last().name@ != name {
        let front = decls.drop_last();
        lemma_last_in(front, name);
        assert forall|j2: int| 0 <= j2 < front.len() implies front[j2] == decls[j2] by {}
    }
}

proof fn lemma_apply_declarations(
    m: Map<Seq<char>, Seq<char>>,
    decls: Seq<Declaration>,
    name: Seq<char>,
)
    ensures
        match last_in(decls, name) {
            Some(j) => {
                &&& apply_declarations(m, decls).contains_key(name)
                &&& apply_declarations(m, decls)[name] == decls[j].value@
            },
            None => {
                &&& apply_declarations(m, decls).contains_key(name) == m.contains_key(name)
                &&& m.contains_key(name) ==> apply_declarations(m, decls)[name] == m[name]
            },
        },
    decreases decls.len(),
{
    if decls.len() > 0 {
        let front = decls.drop_last();
        lemma_apply_declarations(m, front, name);
        lemma_last_in(front, name);
        if decls.last().name@ != name {
            match last_in(front, name) {
                Some(j) => {
                    assert(front[j] == decls[j]);
                },
                None => {},
            }
        }
    }
}

proof fn lemma_last_applied(sheet: Stylesheet, order: Seq<MatchedRule>, name: Seq<char>)
    ensures
        match last_applied(sheet, order, name) {
            Some(d) => {
                &&& 0 <= d.0 < order.len()
                &&& 0 <= d.1 < decls_of(sheet, order, d.0).len()
                &&& applied_name(sheet, order, d.0, d.1) == name
                &&& forall|k: int, j: int|
                    0 <= k < order.len() && 0 <= j < decls_of(sheet, order, k).len() && (k > d.0 || (k
                        == d.0 && j > d.1)) ==> #[trigger] applied_name(sheet, order, k, j) != name
                &&& apply_rules(sheet, order).contains_key(name)
                &&& apply_rules(sheet, order)[name] == decls_of(sheet, order, d.0)[d.1].value@
            },
            None => {
                &&& forall|k: int, j: int|
                    0 <= k < order.len() && 0 <= j < decls_of(sheet, order, k).len()
                        ==> #[trigger] applied_name(sheet, order, k, j) != name
                &&& !apply_rules(sheet, order).contains_key(name)
            },
        },
    decreases order.len(),
{
    if order.len() > 0 {
        let front = order.drop_last();
        let top = order.len() - 1;
        lemma_last_applied(sheet, front, name);
        lemma_last_in(decls_of(sheet, order, top), name);
        lemma_apply_declarations(apply_rules(sheet, front), decls_of(sheet, order, top), name);
        assert forall|k: int, j: int| 0 <= k < top implies #[trigger] applied_name(sheet, front, k, j)
            == applied_name(sheet, order, k, j) by {
            assert(front[k] == order[k]);
        }
        assert forall|k: int| 0 <= k < top implies decls_of(sheet, front, k) == decls_of(
            sheet,
            order,
            k,
        ) by {
            assert(front[k] == order[k]);
        }
        match last_in(decls_of(sheet, order, top), name) {
            Some(j) => {},
            None => {
                match last_applied(sheet, front, name) {
                    Some(d) => {
                        assert forall|k: int, j: int|
                            0 <= k < order.len() && 0 <= j < decls_of(sheet, order, k).len() && (k
                                > d.0 || (k == d.0 && j > d.1)) implies #[trigger] applied_name(
                            sheet,
                            order,
                            k,
                            j,
                        ) != name by {
                            if k < top {
                                assert(applied_name(sheet, front, k, j) != name);
                            } else {
                                assert(decls_of(sheet, order, top)[j].name@ != name);
                            }
                        }
                    },
                    None => {
                        assert forall|k: int, j: int|
                            0 <= k < order.len() && 0 <= j < decls_of(sheet, order, k).len()
                            implies #[trigger] applied_name(sheet, order, k, j) != name by {
                            if k < top {
                                assert(applied_name(sheet, front, k, j) != name);
                            } else {
                                assert(decls_of(sheet, order, top)[j].name@ != name);
                            }
                        }
                    },
                }
            },
        }
    }
}

/// Whether `order` holds the rules of `sheet` that apply to `elem`, and no
/// others, in the order in which they are applied.
spec fn orders_rules(elem: ElementData, sheet: Stylesheet, order: Seq<MatchedRule>) -> bool {
    &&& in_cascade_order(order)
    &&& forall|k: int|
        0 <= k < order.len() ==> rule_applies(elem, sheet, (#[trigger] order[k]).rule as int)
            && order[k] == matched_rule(elem, sheet, order[k].rule as int)
    &&& forall|i: int|
        rule_applies(elem, sheet, i) ==> exists|k: int|
            0 <= k < order.len() && (#[trigger] order[k]).rule == i
}

/// Entering the declarations of the applying rules in the order in which
/// they are applied gives `name` the value of its winning declaration, or
/// none where no rule that applies declares it.
proof fn lemma_cascade_at(
    elem: ElementData,
    sheet: Stylesheet,
    order: Seq<MatchedRule>,
    name: Seq<char>,
)
    requires
        orders_rules(elem, sheet, order),
    ensures
        apply_rules(sheet, order).contains_key(name) == cascaded(elem, sheet).contains_key(name),
        apply_rules(sheet, order).contains_key(name) ==> apply_rules(sheet, order)[name]
            == cascaded(elem, sheet)[name],
{
    lemma_last_applied(sheet, order, name);
    match last_applied(sheet, order, name) {
        Some(d) => {
            let w = (order[d.0].rule as int, d.1);
            assert(applied_name(sheet, order, d.0, d.1) == name);
            assert(declares(elem, sheet, name, w));
            assert forall|e: (int, int)| #[trigger]
                declares(elem, sheet, name, e) && e != w implies overridden_by(
                elem,
                sheet,
                e,
                w,
            ) by {
                let k = choose|k: int| 0 <= k < order.len() && (#[trigger] order[k]).rule == e.0;
                assert(applied_name(sheet, order, k, e.1) == name);
                if k < d.0 {
                    assert(order[k].spec_applied_before(order[d.0]));
                }
            }
            assert(wins(elem, sheet, name, w));
            let c = choose|c: (int, int)| wins(elem, sheet, name, c);
            assert(wins(elem, sheet, name, c));
            if c != w {
                assert(overridden_by(elem, sheet, c, w));
                assert(overridden_by(elem, sheet, w, c));
            }
            assert(c == w);
        },
        None => {
            assert forall|e: (int, int)| !declares(elem, sheet, name, e) by {
                if declares(elem, sheet, name, e) {
                    let k = choose|k: int|
                        0 <= k < order.len() && (#[trigger] order[k]).rule == e.0;
                    assert(applied_name(sheet, order, k, e.1) == name);
                }
            }
        },
    }
}

/// Entering the declarations of the applying rules in the order in which
/// they are applied gives the properties that the cascade defines.
proof fn lemma_cascade(elem: ElementData, sheet: Stylesheet, order: Seq<MatchedRule>)
    requires
        orders_rules(elem, sheet, order),
    ensures
        apply_rules(sheet, order) == cascaded(elem, sheet),
{
    let applied = apply_rules(sheet, order);
    let wanted = cascaded(elem, sheet);
    assert forall|name: Seq<char>| #[trigger]
        applied.dom().contains(name) == wanted.dom().contains(name) by {
        lemma_cascade_at(elem, sheet, order, name);
    }
    assert forall|name: Seq<char>| applied.dom().contains(name) implies #[trigger] applied[name]
        == wanted[name] by {
        lemma_cascade_at(elem, sheet, order, name);
    }
    assert(applied =~= wanted);
}

/// The properties of `elem` under `sheet`.
///
/// The rules that apply are taken in the order in which they are applied, and
/// their declarations are entered one after another, a later one in place of
/// an earlier one of the same name.
pub fn specified_values(elem: &ElementData, sheet: &Stylesheet) -> (values: PropertyMap)
    ensures
        values@ == cascaded(*elem, *sheet),
{
    let matched = matching_rules(elem, sheet);
    let order = cascade_order(&matched);
    proof {
        assert forall|k: int| 0 <= k < order.len() implies rule_applies(
            *elem,
            *sheet,
            (#[trigger] order[k]).rule as int,
        ) && order[k] == matched_rule(*elem, *sheet, order[k].rule as int) by {
            assert(order@.contains(order[k]));
            let a = choose|a: int| 0 <= a < matched.len() && matched[a] == order[k];
            assert(rule_applies(*elem, *sheet, matched[a].rule as int));
        }
        assert forall|i: int| rule_applies(*elem, *sheet, i) implies exists|k: int|
            0 <= k < order.len() && (#[trigger] order[k]).rule == i by {
            let a = choose|a: int| 0 <= a < matched.len() && (#[trigger] matched[a]).rule == i;
            assert(matched@.contains(matched[a]));
            let k = choose|k: int| 0 <= k < order.len() && order[k] == matched[a];
            assert(order[k].rule == i);
        }
    }
    let mut values = PropertyMap::new();
    let mut k: usize = 0;
    assert(order@.take(0) =~= Seq::<MatchedRule>::empty());
    while k < order.len()
        invariant
            k <= order.len(),
            forall|a: int| 0 <= a < order.len() ==> (#[trigger] order[a]).rule < sheet.rules.len(),
            values@ == apply_rules(*sheet, order@.take(k as int)),
        decreases order.len() - k,
    {
        let rule = &sheet.rules[order[k].rule];
        let ghost base = values@;
        let mut j: usize = 0;
        assert(rule.declarations@.take(0) =~= Seq::<Declaration>::empty());
        while j < rule.declarations.len()
            invariant
                j <= rule.declarations.len(),
                values@ == apply_declarations(base, rule.declarations@.take(j as int)),
            decreases rule.declarations.len() - j,
        {
            let d = &rule.declarations[j];
            values.insert(d.name.clone(), d.value.clone());
            assert(rule.declarations@.take(j + 1).drop_last() =~= rule.declarations@.take(j as int));
            j = j + 1;
        }
        assert(rule.declarations@.take(j as int) =~= rule.declarations@);
        assert(order@.take(k + 1).drop_last() =~= order@.take(k as int));
        k = k + 1;
    }
    assert(order@.take(k as int) =~= order@);
    proof {
        assert(orders_rules(*elem, *sheet, order@));
        lemma_cascade(*elem, *sheet, order@);
    }
    values
}

/// The value that the cascade gives a property is that of the declaration
/// that wins.
pub proof fn lemma_winner_gives_value(
    elem: ElementData,
    sheet: Stylesheet,
    name: Seq<char>,
    d: (int, int),
)
    requires
        wins(elem, sheet, name, d),
    ensures
        cascaded(elem, sheet).contains_key(name),
        cascaded(elem, sheet)[name] == sheet.rules[d.0].declarations[d.1].value@,
{
    let c = choose|c: (int, int)| wins(elem, sheet, name, c);
    assert(wins(elem, sheet, name, c));
    if c != d {
        assert(overridden_by(elem, sheet, c, d));
        assert(overridden_by(elem, sheet, d, c));
    }
}

/// Of two declarations of a property, the one in the rule that applies with
/// the weaker specificity never wins, whatever the source indices of the two
/// rules and wherever they stand in the stylesheet.
pub proof fn lemma_stronger_rule_overrides(
    elem: ElementData,
    sheet: Stylesheet,
    name: Seq<char>,
    weak: (int, int),
    strong: (int, int),
)
    requires
        declares(elem, sheet, name, weak),
        declares(elem, sheet, name, strong),
        matched_rule(elem, sheet, strong.0).specificity.spec_outranks(
            matched_rule(elem, sheet, weak.0).specificity,
        ),
    ensures
        overridden_by(elem, sheet, weak, strong),
        !wins(elem, sheet, name, weak),
{
    if wins(elem, sheet, name, weak) {
        assert(overridden_by(elem, sheet, strong, weak));
    }
}

/// Of two declarations of a property in rules that apply with the same
/// specificity, the one in the rule with the lower source index never wins.
pub proof fn lemma_later_rule_overrides(
    elem: ElementData,
    sheet: Stylesheet,
    name: Seq<char>,
    early: (int, int),
    late: (int, int),
)
    requires
        declares(elem, sheet, name, early),
        declares(elem, sheet, name, late),
        matched_rule(elem, sheet, early.0).specificity == matched_rule(
            elem,
            sheet,
            late.0,
        ).specificity,
        sheet.rules[early.0].source_index < sheet.rules[late.0].source_index,
    ensures
        overridden_by(elem, sheet, early, late),
        !wins(elem, sheet, name, early),
{
    if wins(elem, sheet, name, early) {
        assert(overridden_by(elem, sheet, late, early));
    }
}

} // verus!
