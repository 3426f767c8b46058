use vstd::prelude::*;

use crate::parser::{
    expected_message, kind_at, leaf_events, lemma_open_depth_leaves, lemma_trivia_end, step,
    trivia_end, Parser,
};
use crate::syntax_kind::{kind_code, SyntaxKind};
use crate::tree::{finish_event, open_depth, start_event, BuildEvent};

verus! {

/// The build steps of a program body from token `i` on: each non-trivia
/// token is wrapped in an `Error` node, and trivia stays where it falls.
pub open spec fn program_body(ts: Seq<(SyntaxKind, Seq<char>)>, i: int) -> Seq<BuildEvent>
    decreases ts.len() - i,
{
    let p1 = trivia_end(ts, i);
    if 0 <= i <= p1 < ts.len() {
        leaf_events(ts.subrange(i, p1)) + seq![start_event(kind_code(SyntaxKind::Error))]
            + leaf_events(ts.subrange(p1, p1 + 1)) + seq![finish_event()] + program_body(
            ts,
            p1 + 1,
        )
    } else if 0 <= i <= ts.len() {
        leaf_events(ts.subrange(i, ts.len() as int))
    } else {
        seq![]
    }
}

/// The diagnostics of a program body from token `i` on: one for each
/// non-trivia token.
pub open spec fn program_errors(ts: Seq<(SyntaxKind, Seq<char>)>, i: int) -> Seq<Seq<char>>
    decreases ts.len() - i,
{
    let p1 = trivia_end(ts, i);
    if 0 <= i <= p1 < ts.len() {
        seq![expected_message(SyntaxKind::Eof)] + program_errors(ts, p1 + 1)
    } else {
        seq![]
    }
}

/// Every prefix of `ev` from length `b` on leaves at least `d` nodes open.
pub open spec fn floor_from(ev: Seq<BuildEvent>, b: int, d: int) -> bool {
    forall|i: int| b <= i <= ev.len() ==> open_depth(#[trigger] ev.take(i)) >= d
}

pub proof fn lemma_depth_push(ev: Seq<BuildEvent>, e: BuildEvent)
    ensures
        open_depth(ev.push(e)) == open_depth(ev) + if e.0 == 0 {
            1int
        } else if e.0 == 2 {
            -1int
        } else {
            0int
        },
{
    assert(ev.push(e).drop_last() =~= ev);
}

proof fn lemma_floor_leaves(ev: Seq<BuildEvent>, ts: Seq<(SyntaxKind, Seq<char>)>, b: int, d: int)
    requires
        floor_from(ev, b, d),
        0 <= b <= ev.len(),
        open_depth(ev) >= d,
    ensures
        floor_from(ev + leaf_events(ts), b, d),
        open_depth(ev + leaf_events(ts)) == open_depth(ev),
{
    lemma_open_depth_leaves(ev, ts);
    let full = ev + leaf_events(ts);
    assert forall|i: int| b <= i <= full.len() implies open_depth(#[trigger] full.take(i)) >= d by {
        if i <= ev.len() {
            assert(full.take(i) =~= ev.take(i));
        } else {
            assert(full.take(i) =~= ev + leaf_events(ts.take(i - ev.len())));
            lemma_open_depth_leaves(ev, ts.take(i - ev.len()));
        }
    }
}

proof fn lemma_floor_push(ev: Seq<BuildEvent>, e: BuildEvent, b: int, d: int)
    requires
        floor_from(ev, b, d),
        0 <= b <= ev.len(),
        open_depth(ev.push(e)) >= d,
    ensures
        floor_from(ev.push(e), b, d),
{
    let full = ev.push(e);
    assert forall|i: int| b <= i <= full.len() implies open_depth(#[trigger] full.take(i)) >= d by {
        if i <= ev.len() {
            assert(full.take(i) =~= ev.take(i));
        } else {
            assert(full.take(i) =~= full);
        }
    }
}

/// A program body closes every node it opens and never closes one it did
/// not open.
pub proof fn lemma_body_floor(
    ts: Seq<(SyntaxKind, Seq<char>)>,
    i: int,
    ev: Seq<BuildEvent>,
    b: int,
    d: int,
)
    requires
        0 <= i <= ts.len(),
        0 <= b <= ev.len(),
        floor_from(ev, b, d),
        open_depth(ev) == d,
    ensures
        floor_from(ev + program_body(ts, i), b, d),
        open_depth(ev + program_body(ts, i)) == d,
    decreases ts.len() - i,
{
    lemma_trivia_end(ts, i);
    let p1 = trivia_end(ts, i);
    if p1 < ts.len() {
        let s = start_event(kind_code(SyntaxKind::Error));
        let f = finish_event();
        let e1 = ev + leaf_events(ts.subrange(i, p1));
        lemma_floor_leaves(ev, ts.subrange(i, p1), b, d);
        let e2 = e1.push(s);
        lemma_depth_push(e1, s);
        lemma_floor_push(e1, s, b, d);
        let e3 = e2 + leaf_events(ts.subrange(p1, p1 + 1));
        lemma_floor_leaves(e2, ts.subrange(p1, p1 + 1), b, d);
        let e4 = e3.push(f);
        lemma_depth_push(e3, f);
        lemma_floor_push(e3, f, b, d);
        lemma_body_floor(ts, p1 + 1, e4, b, d);
        assert(ev + program_body(ts, i) =~= e4 + program_body(ts, p1 + 1));
    } else {
        lemma_floor_leaves(ev, ts.subrange(i, ts.len() as int), b, d);
    }
}

/// The top-level production: a `Program` node holding every remaining
/// token. The grammar has no construct yet, so each non-trivia token is
/// reported and isolated in an `Error` node.
pub fn parse_program(p: &mut Parser)
    requires
        old(p).wf(),
    ensures
        final(p).wf(),
        final(p).token_seq() == old(p).token_seq(),
        final(p).cursor() == final(p).token_seq().len(),
        final(p).diagnostics() == old(p).diagnostics() + program_errors(
            old(p).token_seq(),
            old(p).cursor(),
        ),
        final(p).events() == old(p).events().push(start_event(kind_code(SyntaxKind::Program)))
            + program_body(old(p).token_seq(), old(p).cursor()) + seq![finish_event()],
{
    let ghost ts = p.token_seq();
    let ghost head = old(p).events().push(start_event(kind_code(SyntaxKind::Program)));
    proof {
        old(p).lemma_wf();
    }
    p.start(SyntaxKind::Program);
    proof {
        assert(p.events() + program_body(ts, p.cursor()) =~= head + program_body(
            ts,
            old(p).cursor(),
        ));
        assert(p.diagnostics() + program_errors(ts, p.cursor()) =~= old(p).diagnostics()
            + program_errors(ts, old(p).cursor()));
    }
    let mut done = false;
    while !done
        invariant
            p.wf(),
            p.token_seq() == ts,
            ts == old(p).token_seq(),
            head == old(p).events().push(start_event(kind_code(SyntaxKind::Program))),
            0 <= p.cursor() <= ts.len(),
            done ==> p.cursor() == ts.len(),
            p.events() + program_body(ts, p.cursor()) == head + program_body(
                ts,
                old(p).cursor(),
            ),
            p.diagnostics() + program_errors(ts, p.cursor()) == old(p).diagnostics()
                + program_errors(ts, old(p).cursor()),
        decreases ts.len() - p.cursor(), if done {
            0int
        } else {
            1int
        },
    {
        let ghost c = p.cursor();
        let ghost ev = p.events();
        let ghost dg = p.diagnostics();
        proof {
            p.lemma_wf();
            lemma_trivia_end(ts, c);
        }
        done = p.expect(SyntaxKind::Eof);
        proof {
            let p1 = trivia_end(ts, c);
            if done {
                assert(p1 == ts.len());
                assert(ts.subrange(ts.len() as int, ts.len() as int) =~= Seq::<
                    (SyntaxKind, Seq<char>),
                >::empty());
                assert(p.events() + program_body(ts, p.cursor()) =~= ev + program_body(ts, c));
                assert(p.diagnostics() + program_errors(ts, p.cursor()) =~= dg + program_errors(
                    ts,
                    c,
                ));
            } else {
                assert(p1 < ts.len());
                assert(p.events() + program_body(ts, p.cursor()) =~= ev + program_body(ts, c));
                assert(p.diagnostics() + program_errors(ts, p.cursor()) =~= dg + program_errors(
                    ts,
                    c,
                ));
            }
        }
    }
    proof {
        p.lemma_wf();
        assert(ts.subrange(ts.len() as int, ts.len() as int) =~= Seq::<
            (SyntaxKind, Seq<char>),
        >::empty());
        assert(program_body(ts, p.cursor()) =~= Seq::<BuildEvent>::empty());
        assert(program_errors(ts, p.cursor()) =~= Seq::<Seq<char>>::empty());
        assert(p.events() =~= head + program_body(ts, old(p).cursor()));
        assert(p.diagnostics() =~= old(p).diagnostics() + program_errors(ts, old(p).cursor()));
        assert(head.take(head.len() as int) =~= head);
        lemma_depth_push(old(p).events(), start_event(kind_code(SyntaxKind::Program)));
        lemma_body_floor(ts, old(p).cursor(), head, head.len() as int, open_depth(head));
    }
    let ghost before = p.events();
    p.finish();
    proof {
        assert(p.events() =~= before + seq![finish_event()]);
    }
}

} // verus!
