use vstd::prelude::*;
use vstd::string::StringExecFns;

use rowan::{GreenNode, GreenNodeBuilder};

use crate::lexer::{concat_texts, lemma_concat_texts_append, lemma_concat_texts_push};
use crate::syntax_kind::{kind_code, kind_name, trivia, RueLang, SyntaxKind};
use crate::token::Token;
use crate::token_kind::TokenKind;
use crate::tree::{
    builder_events, finish_builder, finish_event, finish_node, green_events, leaf_text, new_builder,
    open_depth, single_root, start_event, start_node, token_event, add_token, BuildEvent,
};

verus! {

/// The syntax kind that a token of kind `k` becomes in the tree.
pub open spec fn syntax_kind_of(k: TokenKind) -> SyntaxKind {
    match k {
        TokenKind::Unknown => SyntaxKind::Error,
        TokenKind::Whitespace => SyntaxKind::Whitespace,
        TokenKind::BlockComment { .. } => SyntaxKind::BlockComment,
        TokenKind::LineComment => SyntaxKind::LineComment,
        TokenKind::String { .. } => SyntaxKind::String,
        TokenKind::Ident => SyntaxKind::Ident,
        TokenKind::Fn => SyntaxKind::Fn,
        TokenKind::OpenParen => SyntaxKind::OpenParen,
        TokenKind::CloseParen => SyntaxKind::CloseParen,
        TokenKind::OpenBrace => SyntaxKind::OpenBrace,
        TokenKind::CloseBrace => SyntaxKind::CloseBrace,
        TokenKind::GreaterThan => SyntaxKind::GreaterThan,
        TokenKind::Minus => SyntaxKind::Minus,
    }
}

/// The parser's view of a token sequence.
pub open spec fn converted(ts: Seq<(TokenKind, Seq<char>)>) -> Seq<(SyntaxKind, Seq<char>)> {
    ts.map_values(|t: (TokenKind, Seq<char>)| (syntax_kind_of(t.0), t.1))
}

/// The kind of the token at `i`, or `Eof` past the end.
pub open spec fn kind_at(ts: Seq<(SyntaxKind, Seq<char>)>, i: int) -> SyntaxKind {
    if 0 <= i < ts.len() {
        ts[i].0
    } else {
        SyntaxKind::Eof
    }
}

/// The first position at or after `i` that does not hold trivia.
pub open spec fn trivia_end(ts: Seq<(SyntaxKind, Seq<char>)>, i: int) -> int
    decreases ts.len() - i,
{
    if 0 <= i < ts.len() && trivia(ts[i].0) {
        trivia_end(ts, i + 1)
    } else {
        i
    }
}

/// The position after consuming one token at `i`, if there is one.
pub open spec fn step(ts: Seq<(SyntaxKind, Seq<char>)>, i: int) -> int {
    if i < ts.len() {
        i + 1
    } else {
        i
    }
}

/// The build steps that add the tokens `ts` as leaves.
pub open spec fn leaf_events(ts: Seq<(SyntaxKind, Seq<char>)>) -> Seq<BuildEvent> {
    ts.map_values(|t: (SyntaxKind, Seq<char>)| token_event(kind_code(t.0), t.1))
}

/// The diagnostic recorded when `kind` was expected.
pub open spec fn expected_message(kind: SyntaxKind) -> Seq<char> {
    "expected "@ + kind_name(kind)
}

pub proof fn lemma_trivia_end(ts: Seq<(SyntaxKind, Seq<char>)>, i: int)
    requires
        0 <= i <= ts.len(),
    ensures
        i <= trivia_end(ts, i) <= ts.len(),
        trivia_end(ts, i) < ts.len() ==> !trivia(ts[trivia_end(ts, i)].0),
        forall|j: int| i <= j < trivia_end(ts, i) ==> trivia(#[trigger] ts[j].0),
    decreases ts.len() - i,
{
    if i < ts.len() && trivia(ts[i].0) {
        lemma_trivia_end(ts, i + 1);
    }
}

proof fn lemma_trivia_end_idem(ts: Seq<(SyntaxKind, Seq<char>)>, i: int)
    requires
        0 <= i <= ts.len(),
    ensures
        trivia_end(ts, trivia_end(ts, i)) == trivia_end(ts, i),
{
    lemma_trivia_end(ts, i);
}

/// Adding leaves leaves the depth of open nodes unchanged.
pub proof fn lemma_open_depth_leaves(ev: Seq<BuildEvent>, ts: Seq<(SyntaxKind, Seq<char>)>)
    ensures
        open_depth(ev + leaf_events(ts)) == open_depth(ev),
    decreases ts.len(),
{
    if ts.len() == 0 {
        assert(ev + leaf_events(ts) =~= ev);
    } else {
        let init = ts.drop_last();
        lemma_open_depth_leaves(ev, init);
        assert((ev + leaf_events(ts)).drop_last() =~= ev + leaf_events(init));
    }
}

/// The text that leaves add is the concatenation of their texts.
pub proof fn lemma_leaf_text_leaves(ev: Seq<BuildEvent>, ts: Seq<(SyntaxKind, Seq<char>)>)
    ensures
        leaf_text(ev + leaf_events(ts)) == leaf_text(ev) + concat_texts(ts),
    decreases ts.len(),
{
    if ts.len() == 0 {
        assert(ev + leaf_events(ts) =~= ev);
        assert(leaf_text(ev) + concat_texts(ts) =~= leaf_text(ev));
    } else {
        let init = ts.drop_last();
        lemma_leaf_text_leaves(ev, init);
        assert((ev + leaf_events(ts)).drop_last() =~= ev + leaf_events(init));
        assert(init.push(ts.last()) =~= ts);
        lemma_concat_texts_push(init, ts.last());
    }
}

proof fn lemma_leaf_events_split(ts: Seq<(SyntaxKind, Seq<char>)>, a: int, b: int, c: int)
    requires
        0 <= a <= b <= c <= ts.len(),
    ensures
        leaf_events(ts.subrange(a, b)) + leaf_events(ts.subrange(b, c)) == leaf_events(
            ts.subrange(a, c),
        ),
{
    assert(leaf_events(ts.subrange(a, b)) + leaf_events(ts.subrange(b, c)) =~= leaf_events(
        ts.subrange(a, c),
    ));
}

/// A prefix of the tokens has no more text than all of them.
proof fn lemma_concat_texts_prefix(ts: Seq<(SyntaxKind, Seq<char>)>, n: int)
    requires
        0 <= n <= ts.len(),
    ensures
        concat_texts(ts.take(n)).len() <= concat_texts(ts).len(),
        concat_texts(ts.take(n)) + concat_texts(ts.subrange(n, ts.len() as int)) == concat_texts(ts),
{
    lemma_concat_texts_append(ts.take(n), ts.subrange(n, ts.len() as int));
    assert(ts.take(n) + ts.subrange(n, ts.len() as int) =~= ts);
}

/// Converts a raw token into the parser's kind and text.
fn convert_token<'a>(token: &Token<'a>) -> (r: (SyntaxKind, &'a str))
    ensures
        r.0 == syntax_kind_of(token@.0),
        r.1@ == token@.1,
{
    let kind = match token.kind() {
        TokenKind::Unknown => SyntaxKind::Error,
        TokenKind::Whitespace => SyntaxKind::Whitespace,
        TokenKind::BlockComment { is_terminated: _ } => SyntaxKind::BlockComment,
        TokenKind::LineComment => SyntaxKind::LineComment,
        TokenKind::String { is_terminated: _ } => SyntaxKind::String,
        TokenKind::Ident => SyntaxKind::Ident,
        TokenKind::Fn => SyntaxKind::Fn,
        TokenKind::OpenParen => SyntaxKind::OpenParen,
        TokenKind::CloseParen => SyntaxKind::CloseParen,
        TokenKind::OpenBrace => SyntaxKind::OpenBrace,
        TokenKind::CloseBrace => SyntaxKind::CloseBrace,
        TokenKind::GreaterThan => SyntaxKind::GreaterThan,
        TokenKind::Minus => SyntaxKind::Minus,
    };
    (kind, token.text())
}

/// Drives grammar productions over a token array and records the tree they
/// build, folding trivia into whichever node is open.
pub struct Parser<'a> {
    tokens: Vec<(SyntaxKind, &'a str)>,
    pos: usize,
    builder: GreenNodeBuilder<'static>,
    errors: Vec<String>,
}

impl<'a> Parser<'a> {
    /// The tokens being parsed.
    pub closed spec fn token_seq(&self) -> Seq<(SyntaxKind, Seq<char>)> {
        self.tokens@.map_values(|t: (SyntaxKind, &'a str)| (t.0, t.1@))
    }

    /// The index of the next token to consume.
    pub closed spec fn cursor(&self) -> int {
        self.pos as int
    }

    /// The build steps recorded so far.
    pub closed spec fn events(&self) -> Seq<BuildEvent> {
        builder_events(self.builder)
    }

    /// The diagnostics recorded so far.
    pub closed spec fn diagnostics(&self) -> Seq<Seq<char>> {
        self.errors@.map_values(|e: String| e@)
    }

    pub closed spec fn wf(&self) -> bool {
        &&& self.pos <= self.tokens@.len()
        &&& 4 * concat_texts(self.token_seq()).len() <= u32::MAX
        &&& open_depth(self.events()) >= 0
        &&& forall|k: int| 0 <= k < self.tokens@.len() ==> (#[trigger] self.tokens@[k]).0 != SyntaxKind::Eof
        &&& leaf_text(self.events()) == concat_texts(self.token_seq().take(self.pos as int))
    }

    pub fn new(tokens: &[Token<'a>]) -> (r: Self)
        requires
            4 * concat_texts(tokens@.map_values(|t: Token<'a>| t@)).len() <= u32::MAX,
        ensures
            r.wf(),
            r.token_seq() == converted(tokens@.map_values(|t: Token<'a>| t@)),
            r.cursor() == 0,
            r.events() == Seq::<BuildEvent>::empty(),
            r.diagnostics() == Seq::<Seq<char>>::empty(),
    {
        let ghost src = tokens@.map_values(|t: Token<'a>| t@);
        let mut converted_tokens: Vec<(SyntaxKind, &'a str)> = Vec::new();
        let mut i: usize = 0;
        while i < tokens.len()
            invariant
                i <= tokens@.len(),
                src == tokens@.map_values(|t: Token<'a>| t@),
                converted_tokens@.map_values(|t: (SyntaxKind, &'a str)| (t.0, t.1@)) == converted(
                    src.take(i as int),
                ),
                converted_tokens@.len() == i,
                forall|k: int|
                    0 <= k < i ==> (#[trigger] converted_tokens@[k]).0 != SyntaxKind::Eof,
            decreases tokens@.len() - i,
        {
            let t = convert_token(&tokens[i]);
            let ghost before = converted_tokens@.map_values(|t: (SyntaxKind, &'a str)| (t.0, t.1@));
            converted_tokens.push(t);
            proof {
                assert(src[i as int] == tokens@[i as int]@);
                assert(src.take(i + 1) =~= src.take(i as int).push(src[i as int]));
                assert(converted_tokens@.map_values(|t: (SyntaxKind, &'a str)| (t.0, t.1@))
                    =~= before.push((t.0, t.1@)));
                assert(converted(src.take(i + 1)) =~= converted(src.take(i as int)).push(
                    (syntax_kind_of(src[i as int].0), src[i as int].1),
                ));
            }
            i = i + 1;
            assert(converted_tokens@.map_values(|t: (SyntaxKind, &'a str)| (t.0, t.1@))
                =~= converted(src.take(i as int)));
        }
        assert(src.take(i as int) =~= src);
        let r = Parser {
            tokens: converted_tokens,
            pos: 0,
            builder: new_builder(),
            errors: Vec::new(),
        };
        proof {
            crate::lexer::lemma_concat_texts_same_texts(r.token_seq(), src);
            assert(r.token_seq().take(0) =~= Seq::<(SyntaxKind, Seq<char>)>::empty());
            assert(r.diagnostics() =~= Seq::<Seq<char>>::empty());
        }
        r
    }

    /// What a well-formed parser guarantees: the cursor lies within the
    /// tokens, no node has been closed more often than opened, and the leaves
    /// recorded so far are exactly the consumed tokens.
    pub proof fn lemma_wf(&self)
        requires
            self.wf(),
        ensures
            0 <= self.cursor() <= self.token_seq().len(),
            open_depth(self.events()) >= 0,
            leaf_text(self.events()) == concat_texts(self.token_seq().take(self.cursor())),
            forall|k: int|
                0 <= k < self.token_seq().len() ==> (#[trigger] self.token_seq()[k]).0
                    != SyntaxKind::Eof,
    {
        assert forall|k: int| 0 <= k < self.token_seq().len() implies (#[trigger] self.token_seq()[
            k
        ]).0 != SyntaxKind::Eof by {
            assert(self.tokens@[k].0 != SyntaxKind::Eof);
        }
    }

    /// The diagnostics recorded so far.
    pub fn errors(&self) -> (r: &Vec<String>)
        ensures
            r@.map_values(|e: String| e@) == self.diagnostics(),
    {
        &self.errors
    }

    /// The finished tree; the recorded steps must build one root node.
    pub fn build(self) -> (r: GreenNode)
        requires
            single_root(self.events()),
        ensures
            green_events(r) == self.events(),
            self.wf() ==> leaf_text(green_events(r)) == concat_texts(
                self.token_seq().take(self.cursor()),
            ),
    {
        finish_builder(self.builder)
    }

    /// Opens a node of kind `kind`.
    pub fn start(&mut self, kind: SyntaxKind)
        requires
            old(self).wf(),
        ensures
            final(self).wf(),
            final(self).token_seq() == old(self).token_seq(),
            final(self).cursor() == old(self).cursor(),
            final(self).diagnostics() == old(self).diagnostics(),
            final(self).events() == old(self).events().push(start_event(kind_code(kind))),
            open_depth(final(self).events()) > 0,
    {
        start_node(&mut self.builder, RueLang::kind_to_raw(kind));
        proof {
            let ev = old(self).events();
            assert(self.events().drop_last() =~= ev);
        }
    }

    /// Closes the open node. Pending trivia is not flushed: it goes to
    /// whichever node is open when the cursor passes over it.
    pub fn finish(&mut self)
        requires
            old(self).wf(),
            open_depth(old(self).events()) > 0,
        ensures
            final(self).wf(),
            final(self).token_seq() == old(self).token_seq(),
            final(self).diagnostics() == old(self).diagnostics(),
            final(self).cursor() == old(self).cursor(),
            final(self).events() == old(self).events().push(finish_event()),
    {
        proof {
            lemma_concat_texts_prefix(self.token_seq(), self.cursor());
        }
        finish_node(&mut self.builder);
        proof {
            assert(self.events().drop_last() =~= old(self).events());
        }
    }

    /// Whether the next non-trivia token has kind `kind`; pending trivia is
    /// absorbed into the open node first.
    pub fn at(&mut self, kind: SyntaxKind) -> (r: bool)
        requires
            old(self).wf(),
        ensures
            final(self).wf(),
            final(self).token_seq() == old(self).token_seq(),
            final(self).diagnostics() == old(self).diagnostics(),
            final(self).cursor() == trivia_end(old(self).token_seq(), old(self).cursor()),
            old(self).cursor() <= final(self).cursor() <= final(self).token_seq().len(),
            final(self).events() == old(self).events() + leaf_events(
                old(self).token_seq().subrange(old(self).cursor(), final(self).cursor()),
            ),
            r == (kind_at(old(self).token_seq(), final(self).cursor()) == kind),
    {
        self.peek() == kind
    }

    /// Consumes the next non-trivia token, with the trivia before it, when it
    /// has kind `kind`.
    pub fn eat(&mut self, kind: SyntaxKind) -> (r: bool)
        requires
            old(self).wf(),
        ensures
            final(self).wf(),
            final(self).token_seq() == old(self).token_seq(),
            final(self).diagnostics() == old(self).diagnostics(),
            r == (kind_at(
                old(self).token_seq(),
                trivia_end(old(self).token_seq(), old(self).cursor()),
            ) == kind),
            final(self).cursor() == if r {
                step(old(self).token_seq(), trivia_end(old(self).token_seq(), old(self).cursor()))
            } else {
                trivia_end(old(self).token_seq(), old(self).cursor())
            },
            final(self).events() == old(self).events() + leaf_events(
                old(self).token_seq().subrange(old(self).cursor(), final(self).cursor()),
            ),
    {
        let ghost ts = self.token_seq();
        if self.peek() == kind {
            let ghost mid = self.cursor();
            let ghost ev = self.events();
            proof {
                lemma_trivia_end_idem(ts, old(self).cursor());
            }
            self.bump();
            proof {
                lemma_leaf_events_split(ts, old(self).cursor(), mid, self.cursor());
                assert(old(self).events() + leaf_events(ts.subrange(old(self).cursor(), mid))
                    + leaf_events(ts.subrange(mid, self.cursor())) =~= old(self).events()
                    + leaf_events(ts.subrange(old(self).cursor(), self.cursor())));
            }
            true
        } else {
            false
        }
    }

    /// Consumes a token of kind `kind` as `eat` does; failing that, records
    /// a diagnostic and wraps the next token in an `Error` node, so that the
    /// cursor moves on unless the input is exhausted.
    pub fn expect(&mut self, kind: SyntaxKind) -> (r: bool)
        requires
            old(self).wf(),
        ensures
            final(self).wf(),
            final(self).token_seq() == old(self).token_seq(),
            ({
                let ts = old(self).token_seq();
                let p1 = trivia_end(ts, old(self).cursor());
                let p2 = step(ts, p1);
                &&& r == (kind_at(ts, p1) == kind)
                &&& r ==> {
                    &&& final(self).diagnostics() == old(self).diagnostics()
                    &&& final(self).cursor() == p2
                    &&& final(self).events() == old(self).events() + leaf_events(
                        ts.subrange(old(self).cursor(), p2),
                    )
                }
                &&& !r && p1 < ts.len() ==> final(self).cursor() > old(self).cursor()
                &&& !r ==> {
                    &&& final(self).diagnostics() == old(self).diagnostics().push(
                        expected_message(kind),
                    )
                    &&& final(self).cursor() == p2
                    &&& final(self).events() == old(self).events() + leaf_events(
                        ts.subrange(old(self).cursor(), p1),
                    ) + seq![start_event(kind_code(SyntaxKind::Error))] + leaf_events(
                        ts.subrange(p1, p2),
                    ) + seq![finish_event()]
                }
            }),
    {
        if self.eat(kind) {
            true
        } else {
            let message = String::from_str("expected ").concat(kind.name());
            proof {
                reveal_strlit("expected ");
                lemma_trivia_end_idem(old(self).token_seq(), old(self).cursor());
                lemma_trivia_end(old(self).token_seq(), old(self).cursor());
                assert(old(self).token_seq().subrange(
                    trivia_end(old(self).token_seq(), old(self).cursor()),
                    trivia_end(old(self).token_seq(), old(self).cursor()),
                ) =~= Seq::<(SyntaxKind, Seq<char>)>::empty());
            }
            self.error(message);
            false
        }
    }

    /// Records `message`, absorbs pending trivia into the open node, and
    /// wraps the next token, if any, in an `Error` node.
    fn error(&mut self, message: String)
        requires
            old(self).wf(),
        ensures
            final(self).wf(),
            final(self).token_seq() == old(self).token_seq(),
            final(self).diagnostics() == old(self).diagnostics().push(message@),
            ({
                let ts = old(self).token_seq();
                let p1 = trivia_end(ts, old(self).cursor());
                let p2 = step(ts, p1);
                &&& final(self).cursor() == p2
                &&& final(self).events() == old(self).events() + leaf_events(
                    ts.subrange(old(self).cursor(), p1),
                ) + seq![start_event(kind_code(SyntaxKind::Error))] + leaf_events(
                    ts.subrange(p1, p2),
                ) + seq![finish_event()]
            }),
    {
        let ghost ts = self.token_seq();
        self.errors.push(message);
        proof {
            assert(self.diagnostics() =~= old(self).diagnostics().push(message@));
        }
        self.eat_trivia();
        let ghost p1 = self.cursor();
        let ghost e0 = self.events();
        self.start(SyntaxKind::Error);
        let ghost e1 = self.events();
        proof {
            lemma_trivia_end_idem(ts, old(self).cursor());
            assert(e1.drop_last() =~= e0);
        }
        self.bump();
        let ghost e2 = self.events();
        proof {
            let p2 = self.cursor();
            assert(ts.subrange(p1, p1) =~= Seq::<(SyntaxKind, Seq<char>)>::empty());
            assert(leaf_events(ts.subrange(p1, p1)) =~= Seq::<BuildEvent>::empty());
            assert(open_depth(e2) == open_depth(e1));
        }
        self.finish();
        proof {
            let p2 = self.cursor();
            assert(self.events() =~= old(self).events() + leaf_events(
                ts.subrange(old(self).cursor(), p1),
            ) + seq![start_event(kind_code(SyntaxKind::Error))] + leaf_events(
                ts.subrange(p1, p2),
            ) + seq![finish_event()]);
        }
    }

    /// The kind of the next non-trivia token, absorbing the trivia before it.
    fn peek(&mut self) -> (r: SyntaxKind)
        requires
            old(self).wf(),
        ensures
            final(self).wf(),
            final(self).token_seq() == old(self).token_seq(),
            final(self).diagnostics() == old(self).diagnostics(),
            final(self).cursor() == trivia_end(old(self).token_seq(), old(self).cursor()),
            old(self).cursor() <= final(self).cursor() <= final(self).token_seq().len(),
            final(self).events() == old(self).events() + leaf_events(
                old(self).token_seq().subrange(old(self).cursor(), final(self).cursor()),
            ),
            r == kind_at(old(self).token_seq(), final(self).cursor()),
            open_depth(final(self).events()) == open_depth(old(self).events()),
    {
        self.eat_trivia();
        self.peek_raw()
    }

    /// Consumes the next non-trivia token with the trivia before it.
    fn bump(&mut self) -> (r: SyntaxKind)
        requires
            old(self).wf(),
        ensures
            final(self).wf(),
            final(self).token_seq() == old(self).token_seq(),
            final(self).diagnostics() == old(self).diagnostics(),
            r == kind_at(old(self).token_seq(), trivia_end(old(self).token_seq(), old(self).cursor())),
            final(self).cursor() == step(
                old(self).token_seq(),
                trivia_end(old(self).token_seq(), old(self).cursor()),
            ),
            old(self).cursor() <= final(self).cursor() <= final(self).token_seq().len(),
            open_depth(final(self).events()) == open_depth(old(self).events()),
            final(self).events() == old(self).events() + leaf_events(
                old(self).token_seq().subrange(old(self).cursor(), final(self).cursor()),
            ),
    {
        self.eat_trivia();
        let ghost mid = self.cursor();
        let ghost ev = self.events();
        let k = self.consume_token();
        proof {
            lemma_trivia_end(self.token_seq(), old(self).cursor());
        }
        proof {
            let ts = self.token_seq();
            lemma_leaf_events_split(ts, old(self).cursor(), mid, self.cursor());
            assert(ev + leaf_events(ts.subrange(mid, self.cursor())) =~= self.events());
            assert(old(self).events() + leaf_events(ts.subrange(old(self).cursor(), mid))
                + leaf_events(ts.subrange(mid, self.cursor())) =~= old(self).events()
                + leaf_events(ts.subrange(old(self).cursor(), self.cursor())));
        }
        k
    }

    /// The kind of the token `index` places after the cursor, or `Eof`.
    fn nth_raw(&self, index: usize) -> (r: SyntaxKind)
        requires
            self.wf(),
        ensures
            r == kind_at(self.token_seq(), self.cursor() + index),
    {
        if index < self.tokens.len() - self.pos {
            self.tokens[self.pos + index].0
        } else {
            SyntaxKind::default()
        }
    }

    /// The kind of the token at the cursor, or `Eof`.
    fn peek_raw(&self) -> (r: SyntaxKind)
        requires
            self.wf(),
        ensures
            r == kind_at(self.token_seq(), self.cursor()),
    {
        self.nth_raw(0)
    }

    /// Consumes trivia tokens into the open node.
    fn eat_trivia(&mut self)
        requires
            old(self).wf(),
        ensures
            final(self).wf(),
            final(self).token_seq() == old(self).token_seq(),
            final(self).diagnostics() == old(self).diagnostics(),
            final(self).cursor() == trivia_end(old(self).token_seq(), old(self).cursor()),
            old(self).cursor() <= final(self).cursor() <= final(self).token_seq().len(),
            open_depth(final(self).events()) == open_depth(old(self).events()),
            final(self).events() == old(self).events() + leaf_events(
                old(self).token_seq().subrange(old(self).cursor(), final(self).cursor()),
            ),
    {
        let ghost ts = self.token_seq();
        proof {
            lemma_trivia_end(ts, old(self).cursor());
            assert(old(self).events() + leaf_events(ts.subrange(self.cursor(), self.cursor()))
                =~= old(self).events());
        }
        while self.peek_raw().is_trivia()
            invariant
                self.wf(),
                self.token_seq() == ts,
                ts == old(self).token_seq(),
                self.diagnostics() == old(self).diagnostics(),
                old(self).cursor() <= self.cursor() <= ts.len(),
                open_depth(self.events()) == open_depth(old(self).events()),
                trivia_end(ts, self.cursor()) == trivia_end(ts, old(self).cursor()),
                self.events() == old(self).events() + leaf_events(
                    ts.subrange(old(self).cursor(), self.cursor()),
                ),
            decreases ts.len() - self.cursor(),
        {
            let ghost p = self.cursor();
            self.consume_token();
            proof {
                assert(old(self).events() + leaf_events(ts.subrange(old(self).cursor(), p)).push(
                    token_event(kind_code(ts[p].0), ts[p].1),
                ) =~= old(self).events() + leaf_events(
                    ts.subrange(old(self).cursor(), self.cursor()),
                ));
            }
        }
    }

    /// Adds the token at the cursor to the open node, or returns `Eof` at the
    /// end.
    fn consume_token(&mut self) -> (r: SyntaxKind)
        requires
            old(self).wf(),
        ensures
            final(self).wf(),
            final(self).token_seq() == old(self).token_seq(),
            final(self).diagnostics() == old(self).diagnostics(),
            r == kind_at(old(self).token_seq(), old(self).cursor()),
            final(self).cursor() == step(old(self).token_seq(), old(self).cursor()),
            open_depth(final(self).events()) == open_depth(old(self).events()),
            old(self).cursor() < old(self).token_seq().len() ==> final(self).events() == old(
                self,
            ).events().push(
                token_event(
                    kind_code(old(self).token_seq()[old(self).cursor()].0),
                    old(self).token_seq()[old(self).cursor()].1,
                ),
            ),
            old(self).cursor() >= old(self).token_seq().len() ==> final(self).events() == old(
                self,
            ).events(),
    {
        if self.pos >= self.tokens.len() {
            return SyntaxKind::Eof;
        }
        let token = self.tokens[self.pos];
        add_token(&mut self.builder, RueLang::kind_to_raw(token.0), token.1);
        self.pos = self.pos + 1;
        proof {
            let ts = self.token_seq();
            let p = old(self).cursor();
            assert(self.events().drop_last() =~= old(self).events());
            assert(ts.take(p + 1) =~= ts.take(p).push(ts[p]));
            lemma_concat_texts_push(ts.take(p), ts[p]);
        }
        token.0
    }
}

} // verus!
