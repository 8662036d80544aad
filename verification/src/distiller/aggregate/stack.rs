//! Stack and tooling: recency-weighted frequencies.

use super::super::SessionIntent;
use super::{decay, decayed, heavy, is_heavy, names, EMA_ALPHA};
use crate::arithmetic::{
    bump_weight, bumped, ema, finite, moved, orderly, reliable, sum, unit, Calculator,
};
use crate::lists::{
    distinct_by, filtered, filtered_to, first, lemma_filtered_distinct, lemma_filtered_from,
    lemma_ranked_distinct, lemma_ranked_from, place_to, placed, ranked, ranked_to,
};
use crate::profile::{DocDomain, Stack, ToolProficiency};
use crate::quantity::{Quantity, POINT_15, POINT_2, ZERO};
use crate::table::Table;
use crate::text::same;
use vstd::prelude::*;

verus! {

/// How much a touched stack/tool weight is bumped per session: 0.15.
pub const STACK_INCREMENT: u64 = POINT_15;

/// How much a doc-domain weight is bumped per visit-bearing session: 0.2.
pub const DOC_DOMAIN_INCREMENT: u64 = POINT_2;

pub const MAX_DOC_DOMAINS: usize = 10;

// ---------------------------------------------------------------------
// Weights
// ---------------------------------------------------------------------

/// The weights after one more session, without those that got too small.
pub open spec fn decayed_weights<C: Calculator>(
    calc: C,
    weights: Map<Seq<char>, Quantity>,
) -> Map<Seq<char>, Quantity> {
    Map::new(
        |name: Seq<char>| weights.dom().contains(name) && heavy(decayed(calc, weights[name])),
        |name: Seq<char>| decayed(calc, weights[name]),
    )
}

pub open spec fn weight_in(weights: Map<Seq<char>, Quantity>, name: Seq<char>) -> Quantity {
    if weights.dom().contains(name) {
        weights[name]
    } else {
        Quantity { bits: ZERO }
    }
}

/// The weights after the first `n` names were used.
pub open spec fn used<C: Calculator>(
    calc: C,
    weights: Map<Seq<char>, Quantity>,
    names: Seq<Seq<char>>,
    n: int,
) -> Map<Seq<char>, Quantity>
    decreases n,
{
    if n <= 0 {
        weights
    } else {
        let before = used(calc, weights, names, n - 1);
        before.insert(
            names[n - 1],
            bumped(calc, weight_in(before, names[n - 1]), Quantity { bits: STACK_INCREMENT }),
        )
    }
}

fn decay_and_prune<C: Calculator>(calc: C, weights: &Table<Quantity>) -> (r: Table<Quantity>)
    requires
        reliable(calc),
        weights.wf(),
    ensures
        r.wf(),
        r@ == decayed_weights(calc, weights@),
{
    let mut out: Table<Quantity> = Table::new();
    for i in 0..weights.entries.len()
        invariant
            reliable(calc),
            weights.wf(),
            out.wf(),
            forall|name: Seq<char>| #[trigger]
                out@.dom().contains(name) <==> exists|j: int|
                    0 <= j < i && (#[trigger] weights.entries@[j]).0@ == name && heavy(
                        decayed(calc, weights.entries@[j].1),
                    ),
            forall|name: Seq<char>| #[trigger]
                out@.dom().contains(name) ==> out@[name] == decayed(calc, weights@[name]),
    {
        proof {
            weights.lemma_entry(i as int);
        }
        let ghost before = out@;
        let weight = decay(calc, weights.entries[i].1);
        if is_heavy(weight) {
            out.set(weights.entries[i].0.as_str(), weight);
        }
        assert forall|name: Seq<char>| #[trigger]
            out@.dom().contains(name) <==> exists|j: int|
                0 <= j < i + 1 && (#[trigger] weights.entries@[j]).0@ == name && heavy(
                    decayed(calc, weights.entries@[j].1),
                ) by {
            if out@.dom().contains(name) {
                if before.dom().contains(name) {
                    let j = choose|j: int|
                        0 <= j < i && (#[trigger] weights.entries@[j]).0@ == name && heavy(
                            decayed(calc, weights.entries@[j].1),
                        );
                    assert(weights.entries@[j].0@ == name);
                } else {
                    assert(weights.entries@[i as int].0@ == name);
                }
            }
        }
    }
    assert(out@ =~= decayed_weights(calc, weights@)) by {
        assert forall|name: Seq<char>| #[trigger]
            out@.dom().contains(name) <==> weights@.dom().contains(name) && heavy(
                decayed(calc, weights@[name]),
            ) by {
            if weights@.dom().contains(name) {
                let k = weights.lemma_has_entry(name);
                if heavy(decayed(calc, weights@[name])) {
                    assert(weights.entries@[k].0@ == name);
                }
            }
            if out@.dom().contains(name) {
                let j = choose|j: int|
                    0 <= j < weights.entries@.len() && (#[trigger] weights.entries@[j]).0@ == name
                        && heavy(decayed(calc, weights.entries@[j].1));
                weights.lemma_entry(j);
            }
        }
    }
    out
}

fn bump<C: Calculator>(calc: C, weights: &mut Table<Quantity>, name: &str)
    requires
        reliable(calc),
        old(weights).wf(),
    ensures
        final(weights).wf(),
        final(weights)@ == old(weights)@.insert(
            name@,
            bumped(calc, weight_in(old(weights)@, name@), Quantity { bits: STACK_INCREMENT }),
        ),
{
    let weight = match weights.get(name) {
        Some(w) => *w,
        None => Quantity { bits: ZERO },
    };
    weights.set(name, bump_weight(calc, weight, Quantity { bits: STACK_INCREMENT }));
}

fn bump_all<C: Calculator>(calc: C, weights: &mut Table<Quantity>, counts: &Table<u64>)
    requires
        reliable(calc),
        old(weights).wf(),
    ensures
        final(weights).wf(),
        final(weights)@ == used(
            calc,
            old(weights)@,
            names(counts.entries@),
            counts.entries@.len() as int,
        ),
{
    for i in 0..counts.entries.len()
        invariant
            reliable(calc),
            weights.wf(),
            weights@ == used(calc, old(weights)@, names(counts.entries@), i as int),
    {
        bump(calc, weights, counts.entries[i].0.as_str());
    }
}

// ---------------------------------------------------------------------
// Tools
// ---------------------------------------------------------------------

pub open spec fn tool_in(tools: Map<Seq<char>, ToolProficiency>, name: Seq<char>) ->
    ToolProficiency {
    if tools.dom().contains(name) {
        tools[name]
    } else {
        ToolProficiency {
            weight: Quantity { bits: ZERO },
            avg_blocked_min_per_session: Quantity { bits: ZERO },
        }
    }
}

/// The tools after one more session.
pub open spec fn decayed_tools<C: Calculator>(
    calc: C,
    tools: Map<Seq<char>, ToolProficiency>,
) -> Map<Seq<char>, ToolProficiency> {
    Map::new(
        |name: Seq<char>| tools.dom().contains(name),
        |name: Seq<char>|
            ToolProficiency { weight: decayed(calc, tools[name].weight), ..tools[name] },
    )
}

/// A tool after a session in which it was used. A session where its tests
/// failed counts as "blocked time" for it; sessions without failures pull the
/// average down.
pub open spec fn used_tool<C: Calculator>(
    calc: C,
    tool: ToolProficiency,
    blocked_min: Quantity,
) -> ToolProficiency {
    ToolProficiency {
        weight: bumped(calc, tool.weight, Quantity { bits: STACK_INCREMENT }),
        avg_blocked_min_per_session: moved(
            calc,
            tool.avg_blocked_min_per_session,
            blocked_min,
            Quantity { bits: EMA_ALPHA },
        ),
    }
}

/// How long a session was blocked on a tool.
pub open spec fn blocked_on(session: &SessionIntent, tool: Seq<char>) -> Quantity {
    if session.test_failure_tools@.dom().contains(tool) {
        session.duration_min
    } else {
        Quantity { bits: ZERO }
    }
}

/// The tools after the first `n` names were used in a session.
pub open spec fn used_tools<C: Calculator>(
    calc: C,
    tools: Map<Seq<char>, ToolProficiency>,
    session: &SessionIntent,
    names: Seq<Seq<char>>,
    n: int,
) -> Map<Seq<char>, ToolProficiency>
    decreases n,
{
    if n <= 0 {
        tools
    } else {
        let before = used_tools(calc, tools, session, names, n - 1);
        let name = names[n - 1];
        before.insert(name, used_tool(calc, tool_in(before, name), blocked_on(session, name)))
    }
}

/// The tools without those that got too small a weight.
pub open spec fn kept_tools(tools: Map<Seq<char>, ToolProficiency>) -> Map<
    Seq<char>,
    ToolProficiency,
> {
    Map::new(
        |name: Seq<char>| tools.dom().contains(name) && heavy(tools[name].weight),
        |name: Seq<char>| tools[name],
    )
}

fn decay_tools<C: Calculator>(calc: C, tools: &Table<ToolProficiency>) -> (r: Table<
    ToolProficiency,
>)
    requires
        reliable(calc),
        tools.wf(),
    ensures
        r.wf(),
        r@ == decayed_tools(calc, tools@),
{
    let mut out: Table<ToolProficiency> = Table::new();
    for i in 0..tools.entries.len()
        invariant
            reliable(calc),
            tools.wf(),
            out.wf(),
            forall|name: Seq<char>| #[trigger]
                out@.dom().contains(name) <==> exists|j: int|
                    0 <= j < i && (#[trigger] tools.entries@[j]).0@ == name,
            forall|name: Seq<char>| #[trigger]
                out@.dom().contains(name) ==> out@[name] == decayed_tools(calc, tools@)[name],
    {
        proof {
            tools.lemma_entry(i as int);
        }
        let ghost before = out@;
        let tool = tools.entries[i].1;
        out.set(
            tools.entries[i].0.as_str(),
            ToolProficiency { weight: decay(calc, tool.weight), ..tool },
        );
        assert forall|name: Seq<char>| #[trigger]
            out@.dom().contains(name) <==> exists|j: int|
                0 <= j < i + 1 && (#[trigger] tools.entries@[j]).0@ == name by {
            if out@.dom().contains(name) {
                if before.dom().contains(name) {
                    let j = choose|j: int| 0 <= j < i && (#[trigger] tools.entries@[j]).0@ == name;
                    assert(tools.entries@[j].0@ == name);
                } else {
                    assert(tools.entries@[i as int].0@ == name);
                }
            }
        }
    }
    assert(out@ =~= decayed_tools(calc, tools@)) by {
        assert forall|name: Seq<char>| #[trigger]
            out@.dom().contains(name) <==> tools@.dom().contains(name) by {
            if tools@.dom().contains(name) {
                let k = tools.lemma_has_entry(name);
                assert(tools.entries@[k].0@ == name);
            }
            if out@.dom().contains(name) {
                let j = choose|j: int|
                    0 <= j < tools.entries@.len() && (#[trigger] tools.entries@[j]).0@ == name;
                tools.lemma_entry(j);
            }
        }
    }
    out
}

fn prune_tools(tools: &Table<ToolProficiency>) -> (r: Table<ToolProficiency>)
    requires
        tools.wf(),
    ensures
        r.wf(),
        r@ == kept_tools(tools@),
{
    let mut out: Table<ToolProficiency> = Table::new();
    for i in 0..tools.entries.len()
        invariant
            tools.wf(),
            out.wf(),
            forall|name: Seq<char>| #[trigger]
                out@.dom().contains(name) <==> exists|j: int|
                    0 <= j < i && (#[trigger] tools.entries@[j]).0@ == name && heavy(
                        tools.entries@[j].1.weight,
                    ),
            forall|name: Seq<char>| #[trigger]
                out@.dom().contains(name) ==> out@[name] == tools@[name],
    {
        proof {
            tools.lemma_entry(i as int);
        }
        let ghost before = out@;
        let tool = tools.entries[i].1;
        if is_heavy(tool.weight) {
            out.set(tools.entries[i].0.as_str(), tool);
        }
        assert forall|name: Seq<char>| #[trigger]
            out@.dom().contains(name) <==> exists|j: int|
                0 <= j < i + 1 && (#[trigger] tools.entries@[j]).0@ == name && heavy(
                    tools.entries@[j].1.weight,
                ) by {
            if out@.dom().contains(name) {
                if before.dom().contains(name) {
                    let j = choose|j: int|
                        0 <= j < i && (#[trigger] tools.entries@[j]).0@ == name && heavy(
                            tools.entries@[j].1.weight,
                        );
                    assert(tools.entries@[j].0@ == name);
                } else {
                    assert(tools.entries@[i as int].0@ == name);
                }
            }
        }
    }
    assert(out@ =~= kept_tools(tools@)) by {
        assert forall|name: Seq<char>| #[trigger]
            out@.dom().contains(name) <==> tools@.dom().contains(name) && heavy(
                tools@[name].weight,
            ) by {
            if tools@.dom().contains(name) {
                let k = tools.lemma_has_entry(name);
                assert(tools.entries@[k].0@ == name);
            }
            if out@.dom().contains(name) {
                let j = choose|j: int|
                    0 <= j < tools.entries@.len() && (#[trigger] tools.entries@[j]).0@ == name
                        && heavy(tools.entries@[j].1.weight);
                tools.lemma_entry(j);
            }
        }
    }
    out
}

fn use_tools<C: Calculator>(
    calc: C,
    tools: &mut Table<ToolProficiency>,
    session: &SessionIntent,
)
    requires
        reliable(calc),
        old(tools).wf(),
    ensures
        final(tools).wf(),
        final(tools)@ == used_tools(
            calc,
            old(tools)@,
            session,
            names(session.tool_counts.entries@),
            session.tool_counts.entries@.len() as int,
        ),
{
    let zero = Quantity { bits: ZERO };
    for i in 0..session.tool_counts.entries.len()
        invariant
            reliable(calc),
            zero.bits == ZERO,
            tools.wf(),
            tools@ == used_tools(
                calc,
                old(tools)@,
                session,
                names(session.tool_counts.entries@),
                i as int,
            ),
    {
        let name = session.tool_counts.entries[i].0.as_str();
        let tool = match tools.get(name) {
            Some(t) => *t,
            None => ToolProficiency { weight: zero, avg_blocked_min_per_session: zero },
        };
        let blocked = match session.test_failure_tools.get(name) {
            Some(_) => session.duration_min,
            None => zero,
        };
        tools.set(
            name,
            ToolProficiency {
                weight: bump_weight(calc, tool.weight, Quantity { bits: STACK_INCREMENT }),
                avg_blocked_min_per_session: ema(
                    calc,
                    tool.avg_blocked_min_per_session,
                    blocked,
                    Quantity { bits: EMA_ALPHA },
                ),
            },
        );
    }
}

// ---------------------------------------------------------------------
// Documentation
// ---------------------------------------------------------------------

#[verifier::ext_equal]
pub struct DocDomainView {
    pub domain: Seq<char>,
    pub weight: Quantity,
}

impl View for DocDomain {
    type V = DocDomainView;

    open spec fn view(&self) -> DocDomainView {
        DocDomainView { domain: self.domain@, weight: self.weight }
    }
}

pub open spec fn doc_views(docs: Seq<DocDomain>) -> Seq<DocDomainView> {
    Seq::new(docs.len(), |i: int| docs[i]@)
}

/// The position at or after `from` of a domain.
pub open spec fn doc_at(docs: Seq<DocDomainView>, domain: Seq<char>, from: int) -> Option<int>
    decreases docs.len() - from,
{
    if from < 0 || from >= docs.len() {
        None
    } else if docs[from].domain == domain {
        Some(from)
    } else {
        doc_at(docs, domain, from + 1)
    }
}

/// The domains after one more session.
pub open spec fn decayed_docs<C: Calculator>(calc: C, docs: Seq<DocDomainView>) -> Seq<
    DocDomainView,
> {
    Seq::new(
        docs.len(),
        |i: int| DocDomainView { weight: decayed(calc, docs[i].weight), ..docs[i] },
    )
}

/// The domains after a visit to one of them.
pub open spec fn visited<C: Calculator>(
    calc: C,
    docs: Seq<DocDomainView>,
    domain: Seq<char>,
) -> Seq<DocDomainView> {
    let inc = Quantity { bits: DOC_DOMAIN_INCREMENT };
    match doc_at(docs, domain, 0) {
        Some(i) => docs.update(
            i,
            DocDomainView { weight: bumped(calc, docs[i].weight, inc), ..docs[i] },
        ),
        None => docs.push(DocDomainView { domain, weight: inc }),
    }
}

/// The domains after visits to the first `n` names.
pub open spec fn all_visited<C: Calculator>(
    calc: C,
    docs: Seq<DocDomainView>,
    names: Seq<Seq<char>>,
    n: int,
) -> Seq<DocDomainView>
    decreases n,
{
    if n <= 0 {
        docs
    } else {
        visited(calc, all_visited(calc, docs, names, n - 1), names[n - 1])
    }
}

pub open spec fn heavy_doc() -> spec_fn(DocDomainView) -> bool {
    |d: DocDomainView| heavy(d.weight)
}

pub open spec fn doc_rank() -> spec_fn(DocDomainView) -> int {
    |d: DocDomainView| d.weight.rank()
}

fn visit<C: Calculator>(calc: C, docs: &mut Vec<DocDomain>, domain: &str)
    requires
        reliable(calc),
    ensures
        doc_views(final(docs)@) == visited(calc, doc_views(old(docs)@), domain@),
{
    let inc = Quantity { bits: DOC_DOMAIN_INCREMENT };
    let ghost all = doc_views(docs@);
    let mut i: usize = 0;
    while i < docs.len()
        invariant
            reliable(calc),
            inc.bits == DOC_DOMAIN_INCREMENT,
            i <= docs@.len(),
            docs@ == old(docs)@,
            all == doc_views(docs@),
            doc_at(all, domain@, i as int) == doc_at(all, domain@, 0),
        decreases docs@.len() - i,
    {
        assert(all[i as int] == docs@[i as int]@);
        if same(docs[i].domain.as_str(), domain) {
            let doc = DocDomain {
                domain: docs[i].domain.clone(),
                weight: bump_weight(calc, docs[i].weight, inc),
            };
            let ghost view = doc@;
            docs.set(i, doc);
            assert(doc_views(docs@) =~= all.update(i as int, view));
            return;
        }
        i = i + 1;
    }
    docs.push(DocDomain { domain: domain.to_owned(), weight: inc });
    assert(doc_views(docs@) =~= visited(calc, all, domain@));
}

fn decay_docs<C: Calculator>(calc: C, docs: &Vec<DocDomain>) -> (r: Vec<DocDomain>)
    requires
        reliable(calc),
    ensures
        doc_views(r@) == decayed_docs(calc, doc_views(docs@)),
{
    let mut out: Vec<DocDomain> = Vec::new();
    for i in 0..docs.len()
        invariant
            reliable(calc),
            out@.len() == i,
            forall|j: int|
                0 <= j < i ==> (#[trigger] out@[j])@ == (DocDomainView {
                    weight: decayed(calc, docs@[j].weight),
                    domain: docs@[j].domain@,
                }),
    {
        out.push(
            DocDomain { domain: docs[i].domain.clone(), weight: decay(calc, docs[i].weight) },
        );
    }
    assert(doc_views(out@) =~= decayed_docs(calc, doc_views(docs@)));
    out
}

fn prune_docs(docs: &Vec<DocDomain>) -> (r: Vec<DocDomain>)
    ensures
        doc_views(r@) == filtered(doc_views(docs@), heavy_doc()),
{
    let ghost all = doc_views(docs@);
    let mut out: Vec<DocDomain> = Vec::new();
    assert(doc_views(out@) =~= Seq::empty());
    for i in 0..docs.len()
        invariant
            all == doc_views(docs@),
            doc_views(out@) == filtered_to(all, heavy_doc(), i as int),
    {
        assert(all[i as int] == docs@[i as int]@);
        if is_heavy(docs[i].weight) {
            let ghost before = doc_views(out@);
            let doc = DocDomain { domain: docs[i].domain.clone(), weight: docs[i].weight };
            out.push(doc);
            assert(doc_views(out@) =~= before.push(doc@));
        }
    }
    out
}

fn rank_docs(docs: &Vec<DocDomain>) -> (r: Vec<DocDomain>)
    ensures
        doc_views(r@) == ranked(doc_views(docs@), doc_rank()),
{
    let ghost all = doc_views(docs@);
    let mut out: Vec<DocDomain> = Vec::new();
    assert(doc_views(out@) =~= Seq::empty());
    for i in 0..docs.len()
        invariant
            all == doc_views(docs@),
            doc_views(out@) == ranked_to(all, doc_rank(), i as int),
    {
        assert(all[i as int] == docs@[i as int]@);
        let doc = DocDomain { domain: docs[i].domain.clone(), weight: docs[i].weight };
        let ghost before = doc_views(out@);
        let w = doc.weight.order();
        let mut n: usize = out.len();
        while n > 0 && out[n - 1].weight.order() < w
            invariant
                n <= out@.len(),
                before == doc_views(out@),
                w == doc_rank()(doc@),
                place_to(before, doc_rank(), w as int, n as int) == place_to(
                    before,
                    doc_rank(),
                    w as int,
                    before.len() as int,
                ),
            decreases n,
        {
            assert(before[n - 1] == out@[n - 1]@);
            n = n - 1;
        }
        assert(n > 0 ==> before[n - 1] == out@[n - 1]@);
        out.insert(n, doc);
        assert(doc_views(out@) =~= before.insert(n as int, doc@));
        assert(doc_views(out@) =~= placed(before, doc_rank(), all[i as int]));
    }
    out
}

fn truncate_docs(docs: &mut Vec<DocDomain>)
    ensures
        doc_views(final(docs)@) == first(doc_views(old(docs)@), MAX_DOC_DOMAINS as int),
{
    if docs.len() > MAX_DOC_DOMAINS {
        docs.truncate(MAX_DOC_DOMAINS);
    }
    assert(doc_views(docs@) =~= first(doc_views(old(docs)@), MAX_DOC_DOMAINS as int));
}

// ---------------------------------------------------------------------
// The group
// ---------------------------------------------------------------------

/// The domains after a session.
pub open spec fn docs_after<C: Calculator>(
    calc: C,
    docs: Seq<DocDomainView>,
    names: Seq<Seq<char>>,
) -> Seq<DocDomainView> {
    first(
        ranked(
            filtered(
                all_visited(calc, decayed_docs(calc, docs), names, names.len() as int),
                heavy_doc(),
            ),
            doc_rank(),
        ),
        MAX_DOC_DOMAINS as int,
    )
}

/// `after` is the stack after a session.
pub open spec fn stack_after<C: Calculator>(
    calc: C,
    before: Stack,
    session: &SessionIntent,
    after: Stack,
) -> bool {
    let apps = names(session.app_focus_counts.entries@);
    let tools = names(session.tool_counts.entries@);
    &&& after.stack_weights.wf()
    &&& after.tool_proficiency.wf()
    &&& after.stack_weights@ == used(
        calc,
        used(calc, decayed_weights(calc, before.stack_weights@), apps, apps.len() as int),
        tools,
        tools.len() as int,
    )
    &&& after.tool_proficiency@ == kept_tools(
        used_tools(
            calc,
            decayed_tools(calc, before.tool_proficiency@),
            session,
            tools,
            tools.len() as int,
        ),
    )
    &&& doc_views(after.doc_domains@) == docs_after(
        calc,
        doc_views(before.doc_domains@),
        names(session.doc_domain_counts.entries@),
    )
    &&& after.shell == before.shell
    &&& after.editor == before.editor
    &&& after.os == before.os
}

/// Folds a session into the stack: what it touched gains weight, everything
/// loses some, and what lost too much is dropped.
pub fn update_stack<C: Calculator>(stack: &mut Stack, session: &SessionIntent, calc: C)
    requires
        reliable(calc),
        old(stack).stack_weights.wf(),
        old(stack).tool_proficiency.wf(),
    ensures
        stack_after(calc, *old(stack), session, *final(stack)),
{
    let mut weights = decay_and_prune(calc, &stack.stack_weights);
    bump_all(calc, &mut weights, &session.app_focus_counts);
    bump_all(calc, &mut weights, &session.tool_counts);
    stack.stack_weights = weights;

    let mut tools = decay_tools(calc, &stack.tool_proficiency);
    use_tools(calc, &mut tools, session);
    stack.tool_proficiency = prune_tools(&tools);

    let ghost all = decayed_docs(calc, doc_views(stack.doc_domains@));
    let ghost domains = names(session.doc_domain_counts.entries@);
    let mut docs = decay_docs(calc, &stack.doc_domains);
    for i in 0..session.doc_domain_counts.entries.len()
        invariant
            reliable(calc),
            domains == names(session.doc_domain_counts.entries@),
            doc_views(docs@) == all_visited(calc, all, domains, i as int),
    {
        visit(calc, &mut docs, session.doc_domain_counts.entries[i].0.as_str());
    }
    let docs = prune_docs(&docs);
    let mut docs = rank_docs(&docs);
    truncate_docs(&mut docs);
    stack.doc_domains = docs;
}

/// A name that is not among the first `n` keeps its weight.
pub proof fn lemma_unused<C: Calculator>(
    calc: C,
    weights: Map<Seq<char>, Quantity>,
    names: Seq<Seq<char>>,
    name: Seq<char>,
    n: int,
)
    requires
        0 <= n <= names.len(),
        !names.contains(name),
    ensures
        used(calc, weights, names, n).dom().contains(name) <==> weights.dom().contains(name),
        weights.dom().contains(name) ==> used(calc, weights, names, n)[name] == weights[name],
    decreases n,
{
    if n > 0 {
        lemma_unused(calc, weights, names, name, n - 1);
        assert(names.contains(names[n - 1]));
    }
}

pub proof fn lemma_unused_tool<C: Calculator>(
    calc: C,
    tools: Map<Seq<char>, ToolProficiency>,
    session: &SessionIntent,
    names: Seq<Seq<char>>,
    name: Seq<char>,
    n: int,
)
    requires
        0 <= n <= names.len(),
        !names.contains(name),
    ensures
        used_tools(calc, tools, session, names, n).dom().contains(name) <==> tools.dom().contains(
            name,
        ),
        tools.dom().contains(name) ==> used_tools(calc, tools, session, names, n)[name]
            == tools[name],
    decreases n,
{
    if n > 0 {
        lemma_unused_tool(calc, tools, session, names, name, n - 1);
        assert(names.contains(names[n - 1]));
    }
}

pub proof fn lemma_unnamed<V>(table: Table<V>, name: Seq<char>)
    requires
        table.wf(),
        !table@.dom().contains(name),
    ensures
        !names(table.entries@).contains(name),
{
    let all = names(table.entries@);
    if all.contains(name) {
        let i = choose|i: int| 0 <= i < all.len() && all[i] == name;
        table.lemma_entry(i);
    }
}

/// What a session does not touch only fades: an app or a tool that was not
/// used has exactly its decayed weight, or is gone because that is too small.
pub proof fn law_untouched_weights_decay<C: Calculator>(
    calc: C,
    before: Stack,
    session: &SessionIntent,
    after: Stack,
    name: Seq<char>,
)
    requires
        stack_after(calc, before, session, after),
        session.app_focus_counts.wf(),
        session.tool_counts.wf(),
        !session.app_focus_counts@.dom().contains(name),
        !session.tool_counts@.dom().contains(name),
    ensures
        after.stack_weights@.dom().contains(name) <==> before.stack_weights@.dom().contains(name)
            && heavy(decayed(calc, before.stack_weights@[name])),
        after.stack_weights@.dom().contains(name) ==> after.stack_weights@[name] == decayed(
            calc,
            before.stack_weights@[name],
        ),
        after.tool_proficiency@.dom().contains(name) <==> before.tool_proficiency@.dom().contains(
            name,
        ) && heavy(decayed(calc, before.tool_proficiency@[name].weight)),
        after.tool_proficiency@.dom().contains(name) ==> after.tool_proficiency@[name] == (
        ToolProficiency {
            weight: decayed(calc, before.tool_proficiency@[name].weight),
            ..before.tool_proficiency@[name]
        }),
{
    let apps = names(session.app_focus_counts.entries@);
    let tools = names(session.tool_counts.entries@);
    lemma_unnamed(session.app_focus_counts, name);
    lemma_unnamed(session.tool_counts, name);
    let faded = decayed_weights(calc, before.stack_weights@);
    lemma_unused(calc, faded, apps, name, apps.len() as int);
    lemma_unused(
        calc,
        used(calc, faded, apps, apps.len() as int),
        tools,
        name,
        tools.len() as int,
    );
    lemma_unused_tool(
        calc,
        decayed_tools(calc, before.tool_proficiency@),
        session,
        tools,
        name,
        tools.len() as int,
    );
}

pub open spec fn doc_name() -> spec_fn(DocDomainView) -> Seq<char> {
    |d: DocDomainView| d.domain
}

pub proof fn lemma_doc_at(docs: Seq<DocDomainView>, domain: Seq<char>, from: int)
    requires
        0 <= from,
    ensures
        match doc_at(docs, domain, from) {
            Some(i) => from <= i < docs.len() && docs[i].domain == domain,
            None => forall|j: int|
                from <= j < docs.len() ==> (#[trigger] docs[j]).domain != domain,
        },
    decreases docs.len() - from,
{
    if from < docs.len() {
        lemma_doc_at(docs, domain, from + 1);
    }
}

pub proof fn lemma_visits_keep_distinct<C: Calculator>(
    calc: C,
    docs: Seq<DocDomainView>,
    names: Seq<Seq<char>>,
    n: int,
)
    requires
        0 <= n <= names.len(),
        distinct_by(docs, doc_name()),
    ensures
        distinct_by(all_visited(calc, docs, names, n), doc_name()),
    decreases n,
{
    if n > 0 {
        lemma_visits_keep_distinct(calc, docs, names, n - 1);
        let before = all_visited(calc, docs, names, n - 1);
        let after = all_visited(calc, docs, names, n);
        lemma_doc_at(before, names[n - 1], 0);
        assert forall|i: int| 0 <= i < before.len() implies (#[trigger] after[i]).domain
            == before[i].domain by {}
        assert forall|i: int, j: int| 0 <= i < j < after.len() implies doc_name()(
            #[trigger] after[i],
        ) != doc_name()(#[trigger] after[j]) by {
            assert(after[i].domain == before[i].domain);
            if j < before.len() {
                assert(after[j].domain == before[j].domain);
                assert(doc_name()(before[i]) != doc_name()(before[j]));
            }
        }
    }
}

/// Domains that were distinct stay distinct.
pub proof fn law_domains_stay_distinct<C: Calculator>(
    calc: C,
    docs: Seq<DocDomainView>,
    names: Seq<Seq<char>>,
)
    requires
        distinct_by(docs, doc_name()),
    ensures
        distinct_by(docs_after(calc, docs, names), doc_name()),
{
    let faded = decayed_docs(calc, docs);
    assert(distinct_by(faded, doc_name())) by {
        assert forall|i: int, j: int| 0 <= i < j < faded.len() implies doc_name()(
            #[trigger] faded[i],
        ) != doc_name()(#[trigger] faded[j]) by {
            assert(doc_name()(docs[i]) != doc_name()(docs[j]));
        }
    }
    lemma_visits_keep_distinct(calc, faded, names, names.len() as int);
    let visited = all_visited(calc, faded, names, names.len() as int);
    lemma_filtered_distinct(visited, heavy_doc(), doc_name(), visited.len() as int);
    let kept = filtered(visited, heavy_doc());
    lemma_ranked_distinct(kept, doc_rank(), doc_name(), kept.len() as int);
}

/// What was not among the first `n` visits is as it was.
proof fn lemma_unvisited<C: Calculator>(
    calc: C,
    docs: Seq<DocDomainView>,
    names: Seq<Seq<char>>,
    n: int,
)
    requires
        0 <= n <= names.len(),
    ensures
        forall|k: int|
            0 <= k < all_visited(calc, docs, names, n).len() && !names.contains(
                (#[trigger] all_visited(calc, docs, names, n)[k]).domain,
            ) ==> k < docs.len() && all_visited(calc, docs, names, n)[k] == docs[k],
    decreases n,
{
    if n > 0 {
        lemma_unvisited(calc, docs, names, n - 1);
        let before = all_visited(calc, docs, names, n - 1);
        let after = all_visited(calc, docs, names, n);
        assert(names.contains(names[n - 1]));
        lemma_doc_at(before, names[n - 1], 0);
        assert forall|k: int| 0 <= k < after.len() && !names.contains(
            (#[trigger] after[k]).domain,
        ) implies k < docs.len() && after[k] == docs[k] by {
            assert(k < before.len() && after[k] == before[k]);
        }
    }
}

/// A domain that was not visited and is still remembered has exactly its
/// decayed weight.
pub proof fn law_unvisited_domains_decay<C: Calculator>(
    calc: C,
    docs: Seq<DocDomainView>,
    names: Seq<Seq<char>>,
    k: int,
)
    requires
        0 <= k < docs_after(calc, docs, names).len(),
        !names.contains(docs_after(calc, docs, names)[k].domain),
    ensures
        exists|i: int|
            0 <= i < docs.len() && docs_after(calc, docs, names)[k] == (DocDomainView {
                weight: decayed(calc, (#[trigger] docs[i]).weight),
                ..docs[i]
            }),
{
    let faded = decayed_docs(calc, docs);
    let visited = all_visited(calc, faded, names, names.len() as int);
    let kept = filtered(visited, heavy_doc());
    let order = ranked(kept, doc_rank());
    let doc = docs_after(calc, docs, names)[k];
    lemma_unvisited(calc, faded, names, names.len() as int);
    lemma_filtered_from(visited, heavy_doc(), visited.len() as int);
    lemma_ranked_from(kept, doc_rank(), kept.len() as int);
    assert(doc == order[k]);
    assert(kept.take(kept.len() as int) =~= kept);
    assert(kept.contains(doc));
    let m = choose|m: int| 0 <= m < kept.len() && kept[m] == doc;
    assert(visited.take(visited.len() as int) =~= visited);
    assert(visited.contains(kept[m]));
    let i = choose|i: int| 0 <= i < visited.len() && visited[i] == doc;
    assert(!names.contains(visited[i].domain));
    assert(faded[i] == doc);
    assert(docs[i].domain == doc.domain);
}

/// All weights of a stack are between zero and one.
pub open spec fn unit_weights(stack: Stack) -> bool {
    &&& forall|name: Seq<char>| #[trigger]
        stack.stack_weights@.dom().contains(name) ==> unit(stack.stack_weights@[name])
    &&& forall|name: Seq<char>| #[trigger]
        stack.tool_proficiency@.dom().contains(name) ==> unit(
            stack.tool_proficiency@[name].weight,
        )
    &&& unit_docs(doc_views(stack.doc_domains@))
}

pub open spec fn unit_docs(docs: Seq<DocDomainView>) -> bool {
    forall|i: int| 0 <= i < docs.len() ==> unit((#[trigger] docs[i]).weight)
}

proof fn lemma_decayed_unit<C: Calculator>(calc: C, weight: Quantity)
    requires
        orderly(calc),
        unit(weight),
    ensures
        unit(decayed(calc, weight)),
{
}

proof fn lemma_bumped_unit<C: Calculator>(calc: C, weight: Quantity, inc: Quantity)
    requires
        orderly(calc),
        unit(weight),
        unit(inc),
    ensures
        unit(bumped(calc, weight, inc)),
{
    assert(sum(calc, weight, inc).rank() <= sum(calc, weight, inc).rank());
    assert(finite(sum(calc, weight, inc)));
}

proof fn lemma_used_unit<C: Calculator>(
    calc: C,
    weights: Map<Seq<char>, Quantity>,
    names: Seq<Seq<char>>,
    n: int,
)
    requires
        orderly(calc),
        0 <= n <= names.len(),
        forall|name: Seq<char>| #[trigger]
            weights.dom().contains(name) ==> unit(weights[name]),
    ensures
        forall|name: Seq<char>| #[trigger]
            used(calc, weights, names, n).dom().contains(name) ==> unit(
                used(calc, weights, names, n)[name],
            ),
    decreases n,
{
    if n > 0 {
        lemma_used_unit(calc, weights, names, n - 1);
        let before = used(calc, weights, names, n - 1);
        lemma_bumped_unit(
            calc,
            weight_in(before, names[n - 1]),
            Quantity { bits: STACK_INCREMENT },
        );
    }
}

proof fn lemma_used_tools_unit<C: Calculator>(
    calc: C,
    tools: Map<Seq<char>, ToolProficiency>,
    session: &SessionIntent,
    names: Seq<Seq<char>>,
    n: int,
)
    requires
        orderly(calc),
        0 <= n <= names.len(),
        forall|name: Seq<char>| #[trigger]
            tools.dom().contains(name) ==> unit(tools[name].weight),
    ensures
        forall|name: Seq<char>| #[trigger]
            used_tools(calc, tools, session, names, n).dom().contains(name) ==> unit(
                used_tools(calc, tools, session, names, n)[name].weight,
            ),
    decreases n,
{
    if n > 0 {
        lemma_used_tools_unit(calc, tools, session, names, n - 1);
        let before = used_tools(calc, tools, session, names, n - 1);
        lemma_bumped_unit(
            calc,
            tool_in(before, names[n - 1]).weight,
            Quantity { bits: STACK_INCREMENT },
        );
    }
}

proof fn lemma_visited_unit<C: Calculator>(
    calc: C,
    docs: Seq<DocDomainView>,
    names: Seq<Seq<char>>,
    n: int,
)
    requires
        orderly(calc),
        0 <= n <= names.len(),
        unit_docs(docs),
    ensures
        unit_docs(all_visited(calc, docs, names, n)),
    decreases n,
{
    if n > 0 {
        lemma_visited_unit(calc, docs, names, n - 1);
        let before = all_visited(calc, docs, names, n - 1);
        lemma_doc_at(before, names[n - 1], 0);
        if let Some(i) = doc_at(before, names[n - 1], 0) {
            lemma_bumped_unit(calc, before[i].weight, Quantity { bits: DOC_DOMAIN_INCREMENT });
        }
    }
}

/// Weights between zero and one stay there, where the arithmetic is orderly.
pub proof fn law_weights_stay_between_zero_and_one<C: Calculator>(
    calc: C,
    before: Stack,
    session: &SessionIntent,
    after: Stack,
)
    requires
        orderly(calc),
        stack_after(calc, before, session, after),
        unit_weights(before),
    ensures
        unit_weights(after),
{
    let apps = names(session.app_focus_counts.entries@);
    let tools = names(session.tool_counts.entries@);
    let domains = names(session.doc_domain_counts.entries@);
    let faded = decayed_weights(calc, before.stack_weights@);
    assert forall|name: Seq<char>| #[trigger] faded.dom().contains(name) implies unit(
        faded[name],
    ) by {
        lemma_decayed_unit(calc, before.stack_weights@[name]);
    }
    lemma_used_unit(calc, faded, apps, apps.len() as int);
    lemma_used_unit(calc, used(calc, faded, apps, apps.len() as int), tools, tools.len() as int);
    let faded_tools = decayed_tools(calc, before.tool_proficiency@);
    assert forall|name: Seq<char>| #[trigger] faded_tools.dom().contains(name) implies unit(
        faded_tools[name].weight,
    ) by {
        lemma_decayed_unit(calc, before.tool_proficiency@[name].weight);
    }
    lemma_used_tools_unit(calc, faded_tools, session, tools, tools.len() as int);
    let docs = doc_views(before.doc_domains@);
    let faded_docs = decayed_docs(calc, docs);
    assert forall|i: int| 0 <= i < faded_docs.len() implies unit((#[trigger] faded_docs[i]).weight)
        by {
        lemma_decayed_unit(calc, docs[i].weight);
    }
    lemma_visited_unit(calc, faded_docs, domains, domains.len() as int);
    let visited = all_visited(calc, faded_docs, domains, domains.len() as int);
    let kept = filtered(visited, heavy_doc());
    lemma_filtered_from(visited, heavy_doc(), visited.len() as int);
    lemma_ranked_from(kept, doc_rank(), kept.len() as int);
    let order = ranked(kept, doc_rank());
    let few = docs_after(calc, docs, domains);
    assert forall|i: int| 0 <= i < few.len() implies unit((#[trigger] few[i]).weight) by {
        assert(few[i] == order[i]);
        assert(kept.take(kept.len() as int) =~= kept);
        assert(kept.contains(order[i]));
        let m = choose|m: int| 0 <= m < kept.len() && kept[m] == order[i];
        assert(visited.take(visited.len() as int) =~= visited);
        assert(visited.contains(kept[m]));
    }
}

/// At most ten domains are remembered, the heaviest first.
pub proof fn law_docs_are_few_and_ranked<C: Calculator>(
    calc: C,
    docs: Seq<DocDomainView>,
    names: Seq<Seq<char>>,
)
    ensures
        docs_after(calc, docs, names).len() <= MAX_DOC_DOMAINS,
        forall|i: int, j: int|
            0 <= i < j < docs_after(calc, docs, names).len() ==> (#[trigger] docs_after(
                calc,
                docs,
                names,
            )[i]).weight.rank() >= (#[trigger] docs_after(calc, docs, names)[j]).weight.rank(),
{
    let kept = filtered(
        all_visited(calc, decayed_docs(calc, docs), names, names.len() as int),
        heavy_doc(),
    );
    let order = ranked(kept, doc_rank());
    crate::lists::law_ranked_items(kept, doc_rank(), kept.len() as int);
    let few = docs_after(calc, docs, names);
    assert forall|i: int, j: int| 0 <= i < j < few.len() implies (
    #[trigger] few[i]).weight.rank() >= (#[trigger] few[j]).weight.rank() by {
        assert(few[i] == order[i] && few[j] == order[j]);
        assert(doc_rank()(order[i]) >= doc_rank()(order[j]));
    }
}

} // verus!
