//! What a session does to the weights of apps, tools and domains.

use super::super::SessionIntent;
use super::outcomes::{one, toward, zero};
use super::stack::{
    all_visited, blocked_on, decayed_docs, decayed_tools, decayed_weights, doc_at, doc_name,
    doc_rank, doc_views, docs_after, heavy_doc, lemma_doc_at, lemma_unnamed, lemma_unused,
    lemma_unused_tool, lemma_visits_keep_distinct, tool_in, used, used_tool, used_tools, weight_in,
    DocDomainView,
};
use super::{distilled, names};
use crate::arithmetic::{product, sum, Calculator};
use crate::lists::{
    distinct_by, filtered, first, law_ranked_items, lemma_filtered_from, lemma_filtered_has,
    lemma_filtered_holds, lemma_ranked_from, ranked,
};
use crate::profile::{ToolProficiency, UserProfile};
use crate::quantity::Quantity;
use crate::table::Table;
use vstd::prelude::*;

verus! {

/// A weight after one more session: 0.95 of it.
pub open spec fn faded<C: Calculator>(calc: C, weight: Quantity) -> Quantity {
    product(calc, weight, Quantity { bits: 0x3FEE_6666_6666_6666 })
}

/// A weight of 0.02 at least.
pub open spec fn enough(weight: Quantity) -> bool {
    weight.rank() >= 0x3F94_7AE1_47AE_147B
}

/// A weight with some more, but no more than one.
pub open spec fn grown<C: Calculator>(calc: C, weight: Quantity, more: Quantity) -> Quantity {
    let w = sum(calc, weight, more);
    if w.rank() > 0x3FF0_0000_0000_0000 {
        one()
    } else {
        w
    }
}

/// The number 0.15.
pub open spec fn app_step() -> Quantity {
    Quantity { bits: 0x3FC3_3333_3333_3333 }
}

/// The number 0.2.
pub open spec fn domain_step() -> Quantity {
    Quantity { bits: 0x3FC9_9999_9999_999A }
}

pub proof fn lemma_names<V>(table: Table<V>, name: Seq<char>)
    requires
        table.wf(),
    ensures
        names(table.entries@).no_duplicates(),
        names(table.entries@).contains(name) <==> table@.dom().contains(name),
{
    let all = names(table.entries@);
    assert forall|i: int, j: int| 0 <= i < all.len() && 0 <= j < all.len() && i != j implies all[i]
        != all[j] by {
        if i < j {
            assert(table.entries@[i].0@ != table.entries@[j].0@);
        } else {
            assert(table.entries@[j].0@ != table.entries@[i].0@);
        }
    }
    if table@.dom().contains(name) {
        let k = table.lemma_has_entry(name);
        assert(all[k] == name);
    } else {
        lemma_unnamed(table, name);
    }
}

proof fn lemma_used_once<C: Calculator>(
    calc: C,
    weights: Map<Seq<char>, Quantity>,
    used_names: Seq<Seq<char>>,
    k: int,
    n: int,
)
    requires
        used_names.no_duplicates(),
        0 <= k < n <= used_names.len(),
    ensures
        used(calc, weights, used_names, n).dom().contains(used_names[k]),
        used(calc, weights, used_names, n)[used_names[k]] == grown(
            calc,
            weight_in(weights, used_names[k]),
            app_step(),
        ),
    decreases n,
{
    if k < n - 1 {
        lemma_used_once(calc, weights, used_names, k, n - 1);
        assert(used_names[k] != used_names[n - 1]);
    } else {
        lemma_used_prefix(calc, weights, used_names, used_names[k], n - 1);
    }
}

proof fn lemma_used_prefix<C: Calculator>(
    calc: C,
    weights: Map<Seq<char>, Quantity>,
    used_names: Seq<Seq<char>>,
    name: Seq<char>,
    n: int,
)
    requires
        0 <= n <= used_names.len(),
        forall|i: int| 0 <= i < n ==> #[trigger] used_names[i] != name,
    ensures
        used(calc, weights, used_names, n).dom().contains(name) <==> weights.dom().contains(name),
        weights.dom().contains(name) ==> used(calc, weights, used_names, n)[name]
            == weights[name],
    decreases n,
{
    if n > 0 {
        lemma_used_prefix(calc, weights, used_names, name, n - 1);
        assert(used_names[n - 1] != name);
    }
}

/// The weight of an app or a tool after a session, before it: what is left of
/// it after fading, or none where that is too little.
pub open spec fn left_over<C: Calculator>(
    calc: C,
    weights: Map<Seq<char>, Quantity>,
    name: Seq<char>,
) -> Quantity {
    if weights.dom().contains(name) && enough(faded(calc, weights[name])) {
        faded(calc, weights[name])
    } else {
        zero()
    }
}

/// Every app and tool fades by a twentieth each session, and is dropped below
/// 0.02. One that the session used gains 0.15 on top of what is left of it:
/// once as an app, once as a tool, and never above one.
pub proof fn law_used_weights_grow<C: Calculator>(
    calc: C,
    before: UserProfile,
    session: &SessionIntent,
    recent: Seq<SessionIntent>,
    after: UserProfile,
    name: Seq<char>,
)
    requires
        distilled(calc, before, session, recent, after),
        session.wf(),
    ensures
        ({
            let app = session.app_focus_counts@.dom().contains(name);
            let tool = session.tool_counts@.dom().contains(name);
            let was = before.stack.stack_weights@;
            let is = after.stack.stack_weights@;
            let rest = left_over(calc, was, name);
            &&& is.dom().contains(name) <==> app || tool || was.dom().contains(name) && enough(
                faded(calc, was[name]),
            )
            &&& !app && !tool && is.dom().contains(name) ==> is[name] == rest
            &&& app != tool ==> is[name] == grown(calc, rest, app_step())
            &&& app && tool ==> is[name] == grown(
                calc,
                grown(calc, rest, app_step()),
                app_step(),
            )
        }),
{
    let apps = names(session.app_focus_counts.entries@);
    let tools = names(session.tool_counts.entries@);
    lemma_names(session.app_focus_counts, name);
    lemma_names(session.tool_counts, name);
    let start = decayed_weights(calc, before.stack.stack_weights@);
    let middle = used(calc, start, apps, apps.len() as int);
    assert(weight_in(start, name) == left_over(calc, before.stack.stack_weights@, name));
    if apps.contains(name) {
        let k = choose|k: int| 0 <= k < apps.len() && apps[k] == name;
        lemma_used_once(calc, start, apps, k, apps.len() as int);
    } else {
        lemma_unused(calc, start, apps, name, apps.len() as int);
    }
    if tools.contains(name) {
        let k = choose|k: int| 0 <= k < tools.len() && tools[k] == name;
        lemma_used_once(calc, middle, tools, k, tools.len() as int);
    } else {
        lemma_unused(calc, middle, tools, name, tools.len() as int);
    }
}

proof fn lemma_tool_prefix<C: Calculator>(
    calc: C,
    tools: Map<Seq<char>, ToolProficiency>,
    session: &SessionIntent,
    used_names: Seq<Seq<char>>,
    name: Seq<char>,
    n: int,
)
    requires
        0 <= n <= used_names.len(),
        forall|i: int| 0 <= i < n ==> #[trigger] used_names[i] != name,
    ensures
        used_tools(calc, tools, session, used_names, n).dom().contains(name)
            <==> tools.dom().contains(name),
        tools.dom().contains(name) ==> used_tools(calc, tools, session, used_names, n)[name]
            == tools[name],
    decreases n,
{
    if n > 0 {
        lemma_tool_prefix(calc, tools, session, used_names, name, n - 1);
        assert(used_names[n - 1] != name);
    }
}

proof fn lemma_tool_once<C: Calculator>(
    calc: C,
    tools: Map<Seq<char>, ToolProficiency>,
    session: &SessionIntent,
    used_names: Seq<Seq<char>>,
    k: int,
    n: int,
)
    requires
        used_names.no_duplicates(),
        0 <= k < n <= used_names.len(),
    ensures
        used_tools(calc, tools, session, used_names, n).dom().contains(used_names[k]),
        used_tools(calc, tools, session, used_names, n)[used_names[k]] == used_tool(
            calc,
            tool_in(tools, used_names[k]),
            blocked_on(session, used_names[k]),
        ),
    decreases n,
{
    if k < n - 1 {
        lemma_tool_once(calc, tools, session, used_names, k, n - 1);
        assert(used_names[k] != used_names[n - 1]);
    } else {
        lemma_tool_prefix(calc, tools, session, used_names, used_names[k], n - 1);
    }
}

/// A tool that the session used gains 0.15 on its faded weight, and its
/// blocked minutes move toward the length of the session if its tests failed,
/// and toward zero if not. One that was not used only fades. A tool is kept
/// as long as its weight is enough.
pub proof fn law_tools_are_blocked_by_failing_tests<C: Calculator>(
    calc: C,
    before: UserProfile,
    session: &SessionIntent,
    recent: Seq<SessionIntent>,
    after: UserProfile,
    name: Seq<char>,
)
    requires
        distilled(calc, before, session, recent, after),
        session.wf(),
    ensures
        ({
            let used_now = session.tool_counts@.dom().contains(name);
            let failed = session.test_failure_tools@.dom().contains(name);
            let was = before.stack.tool_proficiency@;
            let is = after.stack.tool_proficiency@;
            let known = was.dom().contains(name);
            let weight = if known {
                faded(calc, was[name].weight)
            } else {
                zero()
            };
            let blocked = if known {
                was[name].avg_blocked_min_per_session
            } else {
                zero()
            };
            let new_weight = if used_now {
                grown(calc, weight, app_step())
            } else {
                weight
            };
            &&& is.dom().contains(name) <==> (used_now || known) && enough(new_weight)
            &&& is.dom().contains(name) ==> is[name].weight == new_weight
            &&& is.dom().contains(name) && !used_now ==> is[name].avg_blocked_min_per_session
                == blocked
            &&& is.dom().contains(name) && used_now && failed
                ==> is[name].avg_blocked_min_per_session == toward(
                calc,
                blocked,
                session.duration_min,
            )
            &&& is.dom().contains(name) && used_now && !failed
                ==> is[name].avg_blocked_min_per_session == toward(calc, blocked, zero())
        }),
{
    let tools = names(session.tool_counts.entries@);
    lemma_names(session.tool_counts, name);
    let start = decayed_tools(calc, before.stack.tool_proficiency@);
    if tools.contains(name) {
        let k = choose|k: int| 0 <= k < tools.len() && tools[k] == name;
        lemma_tool_once(calc, start, session, tools, k, tools.len() as int);
    } else {
        lemma_unused_tool(calc, start, session, tools, name, tools.len() as int);
    }
}

// ---------------------------------------------------------------------
// The heaviest items
// ---------------------------------------------------------------------

/// Of the items that `p` holds of, the `max` heaviest are kept: what is kept is
/// among them, and what is not weighs no more than any that is.
pub proof fn lemma_heaviest<T>(
    items: Seq<T>,
    p: spec_fn(T) -> bool,
    weight: spec_fn(T) -> int,
    max: int,
)
    requires
        0 <= max,
    ensures
        ({
            let kept = first(ranked(filtered(items, p), weight), max);
            &&& kept.len() <= max
            &&& forall|k: int|
                0 <= k < kept.len() ==> p(#[trigger] kept[k]) && items.contains(kept[k])
            &&& forall|i: int|
                0 <= i < items.len() && p(#[trigger] items[i]) && !kept.contains(items[i])
                    ==> kept.len() == max && forall|k: int|
                    0 <= k < kept.len() ==> weight(#[trigger] kept[k]) >= weight(items[i])
        }),
{
    broadcast use vstd::seq_lib::group_to_multiset_ensures;

    let good = filtered(items, p);
    let order = ranked(good, weight);
    let kept = first(order, max);
    lemma_filtered_from(items, p, items.len() as int);
    lemma_filtered_holds(items, p, items.len() as int);
    lemma_ranked_from(good, weight, good.len() as int);
    law_ranked_items(good, weight, good.len() as int);
    assert(items.take(items.len() as int) =~= items);
    assert(good.take(good.len() as int) =~= good);
    assert forall|k: int| 0 <= k < kept.len() implies p(#[trigger] kept[k]) && items.contains(
        kept[k],
    ) by {
        assert(kept[k] == order[k]);
        assert(good.contains(order[k]));
        let m = choose|m: int| 0 <= m < good.len() && good[m] == order[k];
        assert(items.contains(good[m]));
        assert(p(good[m]));
    }
    assert forall|i: int|
        0 <= i < items.len() && p(#[trigger] items[i]) && !kept.contains(
            items[i],
        ) implies kept.len() == max && forall|k: int|
        0 <= k < kept.len() ==> weight(#[trigger] kept[k]) >= weight(items[i]) by {
        lemma_filtered_has(items, p, i, items.len() as int);
        assert(good.contains(items[i]));
        assert(good.to_multiset().count(items[i]) > 0);
        assert(order.contains(items[i]));
        let m = choose|m: int| 0 <= m < order.len() && order[m] == items[i];
        if m < kept.len() {
            assert(kept[m] == items[i]);
        }
        assert(m >= kept.len());
        assert forall|k: int| 0 <= k < kept.len() implies weight(#[trigger] kept[k]) >= weight(
            items[i],
        ) by {
            assert(kept[k] == order[k]);
            assert(weight(order[k]) >= weight(order[m]));
        }
    }
}

proof fn lemma_visits<C: Calculator>(
    calc: C,
    docs: Seq<DocDomainView>,
    visits: Seq<Seq<char>>,
    domain: Seq<char>,
    n: int,
)
    requires
        0 <= n <= visits.len(),
        visits.no_duplicates(),
        distinct_by(docs, doc_name()),
    ensures
        ({
            let all = all_visited(calc, docs, visits, n);
            let seen = visits.take(n).contains(domain);
            &&& distinct_by(all, doc_name())
            &&& forall|i: int|
                0 <= i < docs.len() && (#[trigger] docs[i]).domain == domain ==> i < all.len()
                    && all[i].domain == domain && all[i].weight == if seen {
                    grown(calc, docs[i].weight, domain_step())
                } else {
                    docs[i].weight
                }
            &&& (forall|i: int| 0 <= i < docs.len() ==> (#[trigger] docs[i]).domain != domain) ==> {
                &&& seen ==> exists|k: int|
                    0 <= k < all.len() && (#[trigger] all[k]).domain == domain && all[k].weight
                        == domain_step()
                &&& !seen ==> forall|k: int|
                    0 <= k < all.len() ==> (#[trigger] all[k]).domain != domain
            }
        }),
    decreases n,
{
    lemma_visits_keep_distinct(calc, docs, visits, n);
    if n > 0 {
        lemma_visits(calc, docs, visits, domain, n - 1);
        let before = all_visited(calc, docs, visits, n - 1);
        let after = all_visited(calc, docs, visits, n);
        let visit = visits[n - 1];
        lemma_doc_at(before, visit, 0);
        let some = visits.take(n - 1);
        let all = visits.take(n);
        assert(all =~= some.push(visit));
        assert(all.contains(domain) <==> some.contains(domain) || visit == domain) by {
            if some.contains(domain) {
                let k = choose|k: int| 0 <= k < some.len() && some[k] == domain;
                assert(all[k] == domain);
            }
            if visit == domain {
                assert(all[n - 1] == domain);
            }
            if all.contains(domain) {
                let k = choose|k: int| 0 <= k < all.len() && all[k] == domain;
                if k < n - 1 {
                    assert(some[k] == domain);
                }
            }
        }
        if visit == domain {
            assert(!some.contains(domain)) by {
                if some.contains(domain) {
                    let k = choose|k: int| 0 <= k < some.len() && some[k] == domain;
                    assert(visits[k] == visits[n - 1]);
                }
            }
            if exists|i: int| 0 <= i < docs.len() && (#[trigger] docs[i]).domain == domain {
                let i = choose|i: int| 0 <= i < docs.len() && (#[trigger] docs[i]).domain == domain;
                assert(before[i].domain == domain);
                let m = doc_at(before, visit, 0)->0;
                if m != i {
                    if m < i {
                        assert(doc_name()(before[m]) != doc_name()(before[i]));
                    } else {
                        assert(doc_name()(before[i]) != doc_name()(before[m]));
                    }
                }
            } else {
                assert(after[before.len() as int].domain == domain);
            }
        } else {
            assert forall|k: int| 0 <= k < before.len() && before[k].domain == domain implies (
            #[trigger] after[k]) == before[k] by {}
            if seen_new(docs, some, domain) {
                let k = choose|k: int|
                    0 <= k < before.len() && (#[trigger] before[k]).domain == domain
                        && before[k].weight == domain_step();
                assert(after[k] == before[k]);
            }
        }
    } else {
        assert(!visits.take(0).contains(domain));
    }
}

spec fn seen_new(docs: Seq<DocDomainView>, some: Seq<Seq<char>>, domain: Seq<char>) -> bool {
    some.contains(domain) && forall|i: int|
        0 <= i < docs.len() ==> (#[trigger] docs[i]).domain != domain
}

/// The weight of a domain after a session: it fades, and gains 0.2 if the
/// session studied a page there; a domain that is new starts with 0.2.
pub open spec fn domain_weight<C: Calculator>(
    calc: C,
    known: Option<Quantity>,
    studied: bool,
) -> Option<Quantity> {
    match known {
        Some(w) => Some(
            if studied {
                grown(calc, faded(calc, w), domain_step())
            } else {
                faded(calc, w)
            },
        ),
        None => if studied {
            Some(domain_step())
        } else {
            None
        },
    }
}

/// The weight at which a domain is remembered, if it is.
pub open spec fn remembered_at(
    docs: Seq<crate::profile::DocDomain>,
    domain: Seq<char>,
    weight: Option<Quantity>,
) -> bool {
    match weight {
        Some(w) => exists|i: int|
            0 <= i < docs.len() && (#[trigger] docs[i]).domain@ == domain && docs[i].weight == w,
        None => forall|i: int| 0 <= i < docs.len() ==> (#[trigger] docs[i]).domain@ != domain,
    }
}

/// A domain is remembered with the weight that fading and studying give it, as
/// long as that is enough and it is among the ten heaviest.
pub proof fn law_domains_are_remembered_by_weight<C: Calculator>(
    calc: C,
    before: UserProfile,
    session: &SessionIntent,
    recent: Seq<SessionIntent>,
    after: UserProfile,
    domain: Seq<char>,
    known: Option<Quantity>,
)
    requires
        distilled(calc, before, session, recent, after),
        session.wf(),
        forall|i: int, j: int|
            0 <= i < j < before.stack.doc_domains@.len() ==> (
            #[trigger] before.stack.doc_domains@[i]).domain@ != (
            #[trigger] before.stack.doc_domains@[j]).domain@,
        remembered_at(before.stack.doc_domains@, domain, known),
    ensures
        ({
            let docs = after.stack.doc_domains@;
            let weight = domain_weight(
                calc,
                known,
                session.doc_domain_counts@.dom().contains(domain),
            );
            &&& docs.len() <= 10
            &&& forall|k: int|
                0 <= k < docs.len() && (#[trigger] docs[k]).domain@ == domain ==> weight == Some(
                    docs[k].weight,
                ) && enough(docs[k].weight)
            &&& weight is Some && enough(weight->0) && !(exists|k: int|
                0 <= k < docs.len() && (#[trigger] docs[k]).domain@ == domain) ==> docs.len() == 10
                && forall|k: int|
                0 <= k < docs.len() ==> (#[trigger] docs[k]).weight.rank() >= weight->0.rank()
        }),
{
    let old_docs = doc_views(before.stack.doc_domains@);
    let start = decayed_docs(calc, old_docs);
    let visits = names(session.doc_domain_counts.entries@);
    lemma_names(session.doc_domain_counts, domain);
    assert(distinct_by(start, doc_name())) by {
        assert forall|i: int, j: int| 0 <= i < j < start.len() implies doc_name()(
            #[trigger] start[i],
        ) != doc_name()(#[trigger] start[j]) by {
            assert(before.stack.doc_domains@[i].domain@ != before.stack.doc_domains@[j].domain@);
        }
    }
    lemma_visits(calc, start, visits, domain, visits.len() as int);
    assert(visits.take(visits.len() as int) =~= visits);
    let all = all_visited(calc, start, visits, visits.len() as int);
    lemma_heaviest(all, heavy_doc(), doc_rank(), 10);
    let docs = after.stack.doc_domains@;
    let kept = docs_after(calc, old_docs, visits);
    assert(doc_views(docs) == kept);
    assert forall|k: int| 0 <= k < docs.len() implies #[trigger] kept[k] == docs[k]@ by {}
    assert(kept.len() == docs.len());
    let studied = session.doc_domain_counts@.dom().contains(domain);
    let weight = domain_weight(calc, known, studied);
    // Where the domain stands among the candidates, if it does.
    if known is Some {
        let i = choose|i: int|
            0 <= i < before.stack.doc_domains@.len() && (
            #[trigger] before.stack.doc_domains@[i]).domain@ == domain
                && before.stack.doc_domains@[i].weight == known->0;
        assert(old_docs[i] == before.stack.doc_domains@[i]@);
        assert(start[i].domain == domain);
        assert(all[i].domain == domain && Some(all[i].weight) == weight);
    } else {
        assert forall|i: int| 0 <= i < start.len() implies (#[trigger] start[i]).domain
            != domain by {
            assert(start[i].domain == before.stack.doc_domains@[i].domain@);
        }
    }
    assert(weight is Some ==> exists|m: int|
        0 <= m < all.len() && (#[trigger] all[m]).domain == domain && Some(all[m].weight)
            == weight);
    assert forall|k: int| 0 <= k < docs.len() && (#[trigger] docs[k]).domain@ == domain implies weight
        == Some(docs[k].weight) && enough(docs[k].weight) by {
        assert(kept[k] == docs[k]@);
        assert(heavy_doc()(kept[k]));
        assert(all.contains(kept[k]));
        let c = choose|c: int| 0 <= c < all.len() && all[c] == kept[k];
        assert(all[c].domain == domain);
        let m = choose|m: int|
            0 <= m < all.len() && (#[trigger] all[m]).domain == domain && Some(all[m].weight)
                == weight;
        if m < c {
            assert(doc_name()(all[m]) != doc_name()(all[c]));
        } else if c < m {
            assert(doc_name()(all[c]) != doc_name()(all[m]));
        }
    }
    if weight is Some && enough(weight->0) && !(exists|k: int|
        0 <= k < docs.len() && (#[trigger] docs[k]).domain@ == domain) {
        let m = choose|m: int|
            0 <= m < all.len() && (#[trigger] all[m]).domain == domain && Some(all[m].weight)
                == weight;
        assert(heavy_doc()(all[m]));
        assert(!kept.contains(all[m])) by {
            if kept.contains(all[m]) {
                let k = choose|k: int| 0 <= k < kept.len() && kept[k] == all[m];
                assert(docs[k].domain@ == domain);
            }
        }
        assert forall|k: int| 0 <= k < docs.len() implies (#[trigger] docs[k]).weight.rank()
            >= weight->0.rank() by {
            assert(doc_rank()(kept[k]) >= doc_rank()(all[m]));
        }
    }
}

} // verus!
