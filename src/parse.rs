use vstd::prelude::*;

use rowan::GreenNode;

use crate::lexer::{
    concat_texts, lemma_concat_texts_append, lemma_concat_texts_same_texts, lemma_lex_coverage, lemma_lex_lossless, lex, spans_from, tokenize,
};
use crate::parser::{
    converted, leaf_events, lemma_leaf_text_leaves, lemma_trivia_end, trivia_end, Parser,
};
use crate::program::{lemma_body_floor, lemma_depth_push, parse_program, program_body};
use crate::syntax_kind::{kind_code, SyntaxKind};
use crate::tree::{
    finish_event, green_events, leaf_text, open_depth, single_root, start_event, BuildEvent,
};

verus! {

/// The parser's tokens for source text `s`.
pub open spec fn parse_tokens(s: Seq<char>) -> Seq<(SyntaxKind, Seq<char>)> {
    converted(lex(s))
}

/// The build steps of the tree for `s`: a `Program` node around the whole
/// program body.
pub open spec fn parse_events(s: Seq<char>) -> Seq<BuildEvent> {
    seq![start_event(kind_code(SyntaxKind::Program))] + program_body(parse_tokens(s), 0) + seq![
        finish_event(),
    ]
}

/// The tree for any input has exactly one root node.
pub proof fn lemma_parse_single_root(s: Seq<char>)
    ensures
        single_root(parse_events(s)),
{
    let head = seq![start_event(kind_code(SyntaxKind::Program))];
    let ts = parse_tokens(s);
    assert(head =~= Seq::<BuildEvent>::empty().push(start_event(kind_code(SyntaxKind::Program))));
    lemma_depth_push(Seq::<BuildEvent>::empty(), start_event(kind_code(SyntaxKind::Program)));
    assert(open_depth(Seq::<BuildEvent>::empty()) == 0);
    assert(head.take(1) =~= head);
    lemma_body_floor(ts, 0, head, 1, 1);
    let inner = head + program_body(ts, 0);
    let full = parse_events(s);
    assert(full =~= inner.push(finish_event()));
    lemma_depth_push(inner, finish_event());
    assert forall|i: int| 1 <= i < full.len() implies open_depth(#[trigger] full.take(i)) > 0 by {
        assert(full.take(i) =~= inner.take(i));
    }
}

/// Parses `source` into a green tree rooted at a `Program` node. Its leaves,
/// in order, spell `source` exactly.
pub fn parse_text(source: &str) -> (r: GreenNode)
    requires
        4 * source@.len() <= u32::MAX,
    ensures
        green_events(r) == parse_events(source@),
        leaf_text(green_events(r)) == source@,
{
    let tokens = tokenize(source);
    proof {
        lemma_lex_lossless(source@);
        lemma_concat_texts_same_texts(
            tokens@.map_values(|t: crate::token::Token| t@),
            lex(source@),
        );
    }
    let mut parser = Parser::new(tokens.as_slice());
    parse_program(&mut parser);
    proof {
        let ts = parse_tokens(source@);
        parser.lemma_wf();
        assert(ts.take(ts.len() as int) =~= ts);
        lemma_concat_texts_same_texts(ts, lex(source@));
        assert(Seq::<BuildEvent>::empty().push(start_event(kind_code(SyntaxKind::Program)))
            =~= seq![start_event(kind_code(SyntaxKind::Program))]);
        lemma_parse_single_root(source@);
    }
    parser.build()
}

/// Determinism: two trees built for the same input are built by the same
/// steps, so they are structurally identical.
pub proof fn lemma_parse_deterministic(s: Seq<char>, a: GreenNode, b: GreenNode)
    requires
        green_events(a) == parse_events(s),
        green_events(b) == parse_events(s),
    ensures
        green_events(a) == green_events(b),
{
}

/// The token steps of `ev`, in order: the leaves of the tree it builds.
pub open spec fn leaves(ev: Seq<BuildEvent>) -> Seq<BuildEvent>
    decreases ev.len(),
{
    if ev.len() == 0 {
        seq![]
    } else {
        leaves(ev.drop_last()) + if ev.last().0 == 1 {
            seq![ev.last()]
        } else {
            seq![]
        }
    }
}

proof fn lemma_leaves_push(ev: Seq<BuildEvent>, e: BuildEvent)
    requires
        e.0 != 1,
    ensures
        leaves(ev.push(e)) == leaves(ev),
{
    assert(ev.push(e).drop_last() =~= ev);
    assert(leaves(ev) + Seq::<BuildEvent>::empty() =~= leaves(ev));
}

proof fn lemma_leaves_leaf_events(ev: Seq<BuildEvent>, ts: Seq<(SyntaxKind, Seq<char>)>)
    ensures
        leaves(ev + leaf_events(ts)) == leaves(ev) + leaf_events(ts),
    decreases ts.len(),
{
    if ts.len() == 0 {
        assert(ev + leaf_events(ts) =~= ev);
        assert(leaves(ev) + leaf_events(ts) =~= leaves(ev));
    } else {
        let init = ts.drop_last();
        lemma_leaves_leaf_events(ev, init);
        assert((ev + leaf_events(ts)).drop_last() =~= ev + leaf_events(init));
        assert(leaf_events(ts) =~= leaf_events(init).push(leaf_events(ts).last()));
        assert(leaves(ev) + leaf_events(init) + seq![leaf_events(ts).last()] =~= leaves(ev)
            + leaf_events(ts));
    }
}

proof fn lemma_leaves_body(ev: Seq<BuildEvent>, ts: Seq<(SyntaxKind, Seq<char>)>, i: int)
    requires
        0 <= i <= ts.len(),
    ensures
        leaves(ev + program_body(ts, i)) == leaves(ev) + leaf_events(
            ts.subrange(i, ts.len() as int),
        ),
    decreases ts.len() - i,
{
    lemma_trivia_end(ts, i);
    let p1 = trivia_end(ts, i);
    if p1 < ts.len() {
        let s = start_event(kind_code(SyntaxKind::Error));
        let f = finish_event();
        let e1 = ev + leaf_events(ts.subrange(i, p1));
        lemma_leaves_leaf_events(ev, ts.subrange(i, p1));
        let e2 = e1.push(s);
        lemma_leaves_push(e1, s);
        let e3 = e2 + leaf_events(ts.subrange(p1, p1 + 1));
        lemma_leaves_leaf_events(e2, ts.subrange(p1, p1 + 1));
        let e4 = e3.push(f);
        lemma_leaves_push(e3, f);
        lemma_leaves_body(e4, ts, p1 + 1);
        assert(ev + program_body(ts, i) =~= e4 + program_body(ts, p1 + 1));
        assert(leaves(ev) + leaf_events(ts.subrange(i, p1)) + leaf_events(ts.subrange(p1, p1 + 1))
            + leaf_events(ts.subrange(p1 + 1, ts.len() as int)) =~= leaves(ev) + leaf_events(
            ts.subrange(i, ts.len() as int),
        ));
    } else {
        lemma_leaves_leaf_events(ev, ts.subrange(i, ts.len() as int));
    }
}

/// Total coverage through the tree: its leaves are exactly the tokens of
/// `s`, in order, and their spans partition `s` with no gap and no overlap.
pub proof fn lemma_parse_coverage(s: Seq<char>)
    ensures
        leaves(parse_events(s)) == leaf_events(parse_tokens(s)),
        leaves(parse_events(s)).len() == spans_from(s, 0).len(),
        s.len() > 0 ==> spans_from(s, 0)[0].0 == 0 && spans_from(s, 0).last().1 == s.len(),
        forall|k: int|
            0 <= k < spans_from(s, 0).len() ==> {
                &&& (#[trigger] spans_from(s, 0)[k]).0 < spans_from(s, 0)[k].1
                &&& leaves(parse_events(s))[k].2 == s.subrange(
                    spans_from(s, 0)[k].0,
                    spans_from(s, 0)[k].1,
                )
            },
        forall|k: int|
            0 <= k < spans_from(s, 0).len() - 1 ==> (#[trigger] spans_from(s, 0)[k]).1
                == spans_from(s, 0)[k + 1].0,
{
    let ts = parse_tokens(s);
    let head = seq![start_event(kind_code(SyntaxKind::Program))];
    lemma_leaves_push(Seq::<BuildEvent>::empty(), start_event(kind_code(SyntaxKind::Program)));
    assert(head =~= Seq::<BuildEvent>::empty().push(start_event(kind_code(SyntaxKind::Program))));
    assert(leaves(Seq::<BuildEvent>::empty()) =~= Seq::<BuildEvent>::empty());
    lemma_leaves_body(head, ts, 0);
    let inner = head + program_body(ts, 0);
    assert(parse_events(s) =~= inner.push(finish_event()));
    lemma_leaves_push(inner, finish_event());
    assert(ts.subrange(0, ts.len() as int) =~= ts);
    assert(leaves(head) + leaf_events(ts) =~= leaf_events(ts));
    lemma_lex_coverage(s);
}

proof fn lemma_leaf_text_push(ev: Seq<BuildEvent>, e: BuildEvent)
    requires
        e.0 != 1,
    ensures
        leaf_text(ev.push(e)) == leaf_text(ev),
{
    assert(ev.push(e).drop_last() =~= ev);
    assert(leaf_text(ev) + Seq::<char>::empty() =~= leaf_text(ev));
}

proof fn lemma_leaf_text_body(ev: Seq<BuildEvent>, ts: Seq<(SyntaxKind, Seq<char>)>, i: int)
    requires
        0 <= i <= ts.len(),
    ensures
        leaf_text(ev + program_body(ts, i)) == leaf_text(ev) + concat_texts(
            ts.subrange(i, ts.len() as int),
        ),
    decreases ts.len() - i,
{
    lemma_trivia_end(ts, i);
    let p1 = trivia_end(ts, i);
    let n = ts.len() as int;
    if p1 < n {
        let s = start_event(kind_code(SyntaxKind::Error));
        let f = finish_event();
        let e1 = ev + leaf_events(ts.subrange(i, p1));
        lemma_leaf_text_leaves(ev, ts.subrange(i, p1));
        let e2 = e1.push(s);
        lemma_leaf_text_push(e1, s);
        let e3 = e2 + leaf_events(ts.subrange(p1, p1 + 1));
        lemma_leaf_text_leaves(e2, ts.subrange(p1, p1 + 1));
        let e4 = e3.push(f);
        lemma_leaf_text_push(e3, f);
        lemma_leaf_text_body(e4, ts, p1 + 1);
        assert(ev + program_body(ts, i) =~= e4 + program_body(ts, p1 + 1));
        lemma_concat_texts_append(ts.subrange(i, p1), ts.subrange(p1, p1 + 1));
        assert(ts.subrange(i, p1) + ts.subrange(p1, p1 + 1) =~= ts.subrange(i, p1 + 1));
        lemma_concat_texts_append(ts.subrange(i, p1 + 1), ts.subrange(p1 + 1, n));
        assert(ts.subrange(i, p1 + 1) + ts.subrange(p1 + 1, n) =~= ts.subrange(i, n));
        assert(leaf_text(ev) + concat_texts(ts.subrange(i, p1)) + concat_texts(
            ts.subrange(p1, p1 + 1),
        ) + concat_texts(ts.subrange(p1 + 1, n)) =~= leaf_text(ev) + concat_texts(
            ts.subrange(i, n),
        ));
    } else {
        lemma_leaf_text_leaves(ev, ts.subrange(i, n));
    }
}

/// Lossless round trip: for every input `s`, the leaves of its tree, in
/// order, spell `s` exactly.
pub proof fn lemma_parse_lossless(s: Seq<char>)
    ensures
        leaf_text(parse_events(s)) == s,
{
    let ts = parse_tokens(s);
    let head = seq![start_event(kind_code(SyntaxKind::Program))];
    lemma_leaf_text_push(Seq::<BuildEvent>::empty(), start_event(kind_code(SyntaxKind::Program)));
    assert(head =~= Seq::<BuildEvent>::empty().push(start_event(kind_code(SyntaxKind::Program))));
    assert(leaf_text(Seq::<BuildEvent>::empty()) =~= Seq::<char>::empty());
    lemma_leaf_text_body(head, ts, 0);
    let inner = head + program_body(ts, 0);
    assert(parse_events(s) =~= inner.push(finish_event()));
    lemma_leaf_text_push(inner, finish_event());
    assert(ts.subrange(0, ts.len() as int) =~= ts);
    lemma_concat_texts_same_texts(ts, lex(s));
    lemma_lex_lossless(s);
    assert(leaf_text(head) + concat_texts(ts) =~= concat_texts(ts));
}

} // verus!
