use vstd::prelude::*;
use vstd::string::StrSliceExecFns;

use crate::token::Token;
use crate::token_kind::TokenKind;

verus! {

/// The characters with the Unicode `White_Space` property.
pub open spec fn white_space(c: char) -> bool {
    let u = c as u32;
    (0x09 <= u && u <= 0x0D) || u == 0x20 || u == 0x85 || u == 0xA0 || u == 0x1680 || (0x2000
        <= u && u <= 0x200A) || u == 0x2028 || u == 0x2029 || u == 0x202F || u == 0x205F || u
        == 0x3000
}

/// Relies on `char::is_whitespace`, which is true exactly of the characters
/// with the Unicode `White_Space` property.
#[verifier::external_body]
fn is_whitespace(c: char) -> (r: bool)
    ensures
        r == white_space(c),
{
    c.is_whitespace()
}

/// The character at `i`, or `'\0'` past the end of the input.
pub open spec fn char_at(s: Seq<char>, i: int) -> char {
    if 0 <= i < s.len() {
        s[i]
    } else {
        '\0'
    }
}

pub open spec fn id_start(c: char) -> bool {
    ('a' <= c && c <= 'z') || ('A' <= c && c <= 'Z') || c == '_'
}

pub open spec fn id_continue(c: char) -> bool {
    id_start(c) || ('0' <= c && c <= '9')
}

/// End of the maximal run of whitespace that starts at `i`.
pub open spec fn whitespace_end(s: Seq<char>, i: int) -> int
    decreases s.len() - i,
{
    if 0 <= i < s.len() && white_space(s[i]) {
        whitespace_end(s, i + 1)
    } else {
        i
    }
}

/// End of a line comment body that starts at `i`: the next `'\n'`, or the
/// end of the input.
pub open spec fn line_end(s: Seq<char>, i: int) -> int
    decreases s.len() - i,
{
    if 0 <= i < s.len() && s[i] != '\n' {
        line_end(s, i + 1)
    } else {
        i
    }
}

/// End of the identifier characters that start at `i`.
pub open spec fn ident_end(s: Seq<char>, i: int) -> int
    decreases s.len() - i,
{
    if 0 <= i < s.len() && id_continue(s[i]) {
        ident_end(s, i + 1)
    } else {
        i
    }
}

/// Scans a block comment body from `i` (just after `/*`): the end of the
/// token and whether the comment was closed by `*/`.
pub open spec fn block_end(s: Seq<char>, i: int) -> (int, bool)
    decreases s.len() - i,
{
    if i < 0 || i >= s.len() {
        (i, false)
    } else if s[i] == '*' && char_at(s, i + 1) == '/' {
        (i + 2, true)
    } else {
        block_end(s, i + 1)
    }
}

/// Scans a string body from `i` (just after the opening `quote`): the end of
/// the token and whether the matching quote closed it.
pub open spec fn string_end(s: Seq<char>, i: int, quote: char) -> (int, bool)
    decreases s.len() - i,
{
    if i < 0 || i >= s.len() {
        (i, false)
    } else if s[i] == quote {
        (i + 1, true)
    } else {
        string_end(s, i + 1, quote)
    }
}

/// The kind and end of the token that starts at `i`.
pub open spec fn token_at(s: Seq<char>, i: int) -> (TokenKind, int) {
    let c = s[i];
    if c == '(' {
        (TokenKind::OpenParen, i + 1)
    } else if c == ')' {
        (TokenKind::CloseParen, i + 1)
    } else if c == '{' {
        (TokenKind::OpenBrace, i + 1)
    } else if c == '}' {
        (TokenKind::CloseBrace, i + 1)
    } else if c == '-' {
        (TokenKind::Minus, i + 1)
    } else if c == '>' {
        (TokenKind::GreaterThan, i + 1)
    } else if c == '/' {
        if char_at(s, i + 1) == '/' {
            (TokenKind::LineComment, line_end(s, i + 2))
        } else if char_at(s, i + 1) == '*' {
            let (e, t) = block_end(s, i + 2);
            (TokenKind::BlockComment { is_terminated: t }, e)
        } else {
            (TokenKind::Unknown, i + 1)
        }
    } else if c == '\'' || c == '"' {
        let (e, t) = string_end(s, i + 1, c);
        (TokenKind::String { is_terminated: t }, e)
    } else if id_start(c) {
        let e = ident_end(s, i + 1);
        if e == i + 2 && c == 'f' && s[i + 1] == 'n' {
            (TokenKind::Fn, e)
        } else {
            (TokenKind::Ident, e)
        }
    } else if white_space(c) {
        (TokenKind::Whitespace, whitespace_end(s, i + 1))
    } else {
        (TokenKind::Unknown, i + 1)
    }
}

/// The tokens of `s` from position `i` on, each as its kind and its text.
pub open spec fn lex_from(s: Seq<char>, i: int) -> Seq<(TokenKind, Seq<char>)>
    decreases s.len() - i,
{
    if 0 <= i < s.len() {
        let e = token_at(s, i).1;
        if i < e <= s.len() {
            seq![(token_at(s, i).0, s.subrange(i, e))] + lex_from(s, e)
        } else {
            seq![]
        }
    } else {
        seq![]
    }
}

/// The tokens of the whole input.
pub open spec fn lex(s: Seq<char>) -> Seq<(TokenKind, Seq<char>)> {
    lex_from(s, 0)
}

proof fn lemma_whitespace_end(s: Seq<char>, i: int)
    requires
        0 <= i <= s.len(),
    ensures
        i <= whitespace_end(s, i) <= s.len(),
    decreases s.len() - i,
{
    if i < s.len() && white_space(s[i]) {
        lemma_whitespace_end(s, i + 1);
    }
}

proof fn lemma_line_end(s: Seq<char>, i: int)
    requires
        0 <= i <= s.len(),
    ensures
        i <= line_end(s, i) <= s.len(),
    decreases s.len() - i,
{
    if i < s.len() && s[i] != '\n' {
        lemma_line_end(s, i + 1);
    }
}

proof fn lemma_ident_end(s: Seq<char>, i: int)
    requires
        0 <= i <= s.len(),
    ensures
        i <= ident_end(s, i) <= s.len(),
    decreases s.len() - i,
{
    if i < s.len() && id_continue(s[i]) {
        lemma_ident_end(s, i + 1);
    }
}

proof fn lemma_block_end(s: Seq<char>, i: int)
    requires
        0 <= i <= s.len(),
    ensures
        i <= block_end(s, i).0 <= s.len(),
    decreases s.len() - i,
{
    if i < s.len() && !(s[i] == '*' && char_at(s, i + 1) == '/') {
        lemma_block_end(s, i + 1);
    }
}

proof fn lemma_string_end(s: Seq<char>, i: int, quote: char)
    requires
        0 <= i <= s.len(),
    ensures
        i <= string_end(s, i, quote).0 <= s.len(),
    decreases s.len() - i,
{
    if i < s.len() && s[i] != quote {
        lemma_string_end(s, i + 1, quote);
    }
}

/// Every token is non-empty and ends within the input.
pub proof fn lemma_token_at_bounds(s: Seq<char>, i: int)
    requires
        0 <= i < s.len(),
    ensures
        i < token_at(s, i).1 <= s.len(),
{
    lemma_whitespace_end(s, i + 1);
    lemma_ident_end(s, i + 1);
    lemma_string_end(s, i + 1, s[i]);
    if i + 2 <= s.len() {
        lemma_line_end(s, i + 2);
        lemma_block_end(s, i + 2);
    }
}

fn is_id_start(c: char) -> (r: bool)
    ensures
        r == id_start(c),
{
    ('a' <= c && c <= 'z') || ('A' <= c && c <= 'Z') || c == '_'
}

fn is_id_continue(c: char) -> (r: bool)
    ensures
        r == id_continue(c),
{
    is_id_start(c) || ('0' <= c && c <= '9')
}

/// A single forward scan over source text, one token at a time.
pub struct Lexer<'a> {
    source: &'a str,
    chars: Vec<char>,
    pos: usize,
}

impl<'a> Lexer<'a> {
    /// The characters being scanned.
    pub closed spec fn input(&self) -> Seq<char> {
        self.source@
    }

    /// The index of the next character to scan.
    pub closed spec fn position(&self) -> int {
        self.pos as int
    }

    pub closed spec fn wf(&self) -> bool {
        &&& self.chars@ == self.source@
        &&& self.pos <= self.chars@.len()
    }

    pub fn new(source: &'a str) -> (r: Self)
        ensures
            r.wf(),
            r.input() == source@,
            r.position() == 0,
    {
        let n = source.unicode_len();
        let mut chars: Vec<char> = Vec::new();
        let mut i: usize = 0;
        while i < n
            invariant
                n == source@.len(),
                i <= n,
                chars@ == source@.subrange(0, i as int),
            decreases n - i,
        {
            chars.push(source.get_char(i));
            i = i + 1;
        }
        assert(chars@ == source@);
        Lexer { source, chars, pos: 0 }
    }

    fn peek(&self) -> (r: char)
        requires
            self.wf(),
        ensures
            r == char_at(self.input(), self.position()),
    {
        if self.pos < self.chars.len() {
            self.chars[self.pos]
        } else {
            '\0'
        }
    }

    fn bump(&mut self) -> (r: char)
        requires
            old(self).wf(),
        ensures
            final(self).wf(),
            final(self).input() == old(self).input(),
            r == char_at(old(self).input(), old(self).position()),
            final(self).position() == if old(self).position() < old(self).input().len() {
                old(self).position() + 1
            } else {
                old(self).position()
            },
    {
        if self.pos < self.chars.len() {
            let c = self.chars[self.pos];
            self.pos = self.pos + 1;
            c
        } else {
            '\0'
        }
    }

    /// Scans a line comment; the first `/` has been consumed.
    fn line_comment(&mut self) -> (r: TokenKind)
        requires
            old(self).wf(),
            old(self).position() < old(self).input().len(),
        ensures
            final(self).wf(),
            final(self).input() == old(self).input(),
            final(self).position() == line_end(old(self).input(), old(self).position() + 1),
            r == TokenKind::LineComment,
    {
        let ghost s = self.input();
        self.bump();
        while self.pos < self.chars.len() && self.peek() != '\n'
            invariant
                self.wf(),
                self.input() == s,
                s == old(self).input(),
                line_end(s, self.position()) == line_end(s, old(self).position() + 1),
            decreases s.len() - self.position(),
        {
            self.bump();
        }
        TokenKind::LineComment
    }

    /// Scans a block comment; the `/` has been consumed and `*` is next.
    fn block_comment(&mut self) -> (r: TokenKind)
        requires
            old(self).wf(),
            old(self).position() < old(self).input().len(),
        ensures
            final(self).wf(),
            final(self).input() == old(self).input(),
            final(self).position() == block_end(old(self).input(), old(self).position() + 1).0,
            r == (TokenKind::BlockComment {
                is_terminated: block_end(old(self).input(), old(self).position() + 1).1,
            }),
    {
        let ghost s = self.input();
        let ghost target = block_end(s, old(self).position() + 1);
        self.bump();
        loop
            invariant
                self.wf(),
                self.input() == s,
                s == old(self).input(),
                target == block_end(s, old(self).position() + 1),
                block_end(s, self.position()) == target,
            decreases s.len() - self.position(),
        {
            if self.pos >= self.chars.len() {
                return TokenKind::BlockComment { is_terminated: false };
            }
            let c = self.bump();
            if c == '*' && self.peek() == '/' {
                self.bump();
                return TokenKind::BlockComment { is_terminated: true };
            }
        }
    }

    /// Scans a string; the opening `quote` has been consumed.
    fn string(&mut self, quote: char) -> (r: TokenKind)
        requires
            old(self).wf(),
        ensures
            final(self).wf(),
            final(self).input() == old(self).input(),
            final(self).position() == string_end(
                old(self).input(),
                old(self).position(),
                quote,
            ).0,
            r == (TokenKind::String {
                is_terminated: string_end(old(self).input(), old(self).position(), quote).1,
            }),
    {
        let ghost s = self.input();
        let ghost target = string_end(s, old(self).position(), quote);
        loop
            invariant
                self.wf(),
                self.input() == s,
                s == old(self).input(),
                target == string_end(s, old(self).position(), quote),
                string_end(s, self.position(), quote) == target,
            decreases s.len() - self.position(),
        {
            if self.pos >= self.chars.len() {
                return TokenKind::String { is_terminated: false };
            }
            let c = self.bump();
            if c == quote {
                return TokenKind::String { is_terminated: true };
            }
        }
    }

    /// Scans the rest of a run of whitespace.
    fn whitespace(&mut self) -> (r: TokenKind)
        requires
            old(self).wf(),
        ensures
            final(self).wf(),
            final(self).input() == old(self).input(),
            final(self).position() == whitespace_end(old(self).input(), old(self).position()),
            r == TokenKind::Whitespace,
    {
        let ghost s = self.input();
        while self.pos < self.chars.len() && is_whitespace(self.peek())
            invariant
                self.wf(),
                self.input() == s,
                s == old(self).input(),
                whitespace_end(s, self.position()) == whitespace_end(s, old(self).position()),
            decreases s.len() - self.position(),
        {
            self.bump();
        }
        TokenKind::Whitespace
    }

    /// Scans the rest of an identifier whose first character `c` has been
    /// consumed, and tells the keyword from a plain identifier.
    fn ident(&mut self, c: char) -> (r: TokenKind)
        requires
            old(self).wf(),
            0 < old(self).position(),
            old(self).input()[old(self).position() - 1] == c,
        ensures
            final(self).wf(),
            final(self).input() == old(self).input(),
            final(self).position() == ident_end(old(self).input(), old(self).position()),
            r == if final(self).position() == old(self).position() + 1 && c == 'f'
                && old(self).input()[old(self).position()] == 'n' {
                TokenKind::Fn
            } else {
                TokenKind::Ident
            },
    {
        let ghost s = self.input();
        let start = self.pos;
        while is_id_continue(self.peek())
            invariant
                self.wf(),
                self.input() == s,
                s == old(self).input(),
                start <= self.position(),
                ident_end(s, self.position()) == ident_end(s, start as int),
            decreases s.len() - self.position(),
        {
            self.bump();
        }
        if self.pos - start == 1 && c == 'f' && self.chars[start] == 'n' {
            TokenKind::Fn
        } else {
            TokenKind::Ident
        }
    }

    /// Scans the token that starts at the current position.
    fn next_token(&mut self) -> (r: Token<'a>)
        requires
            old(self).wf(),
            old(self).position() < old(self).input().len(),
        ensures
            final(self).wf(),
            final(self).input() == old(self).input(),
            final(self).position() == token_at(old(self).input(), old(self).position()).1,
            r@ == (
                token_at(old(self).input(), old(self).position()).0,
                old(self).input().subrange(old(self).position(), final(self).position()),
            ),
    {
        let start = self.pos;
        let c = self.bump();
        let kind = if c == '(' {
            TokenKind::OpenParen
        } else if c == ')' {
            TokenKind::CloseParen
        } else if c == '{' {
            TokenKind::OpenBrace
        } else if c == '}' {
            TokenKind::CloseBrace
        } else if c == '-' {
            TokenKind::Minus
        } else if c == '>' {
            TokenKind::GreaterThan
        } else if c == '/' {
            let p = self.peek();
            if p == '/' {
                self.line_comment()
            } else if p == '*' {
                self.block_comment()
            } else {
                TokenKind::Unknown
            }
        } else if c == '\'' || c == '"' {
            self.string(c)
        } else if is_id_start(c) {
            self.ident(c)
        } else if is_whitespace(c) {
            self.whitespace()
        } else {
            TokenKind::Unknown
        };
        proof {
            lemma_token_at_bounds(self.input(), start as int);
        }
        Token::new(kind, self.source.substring_char(start, self.pos))
    }

    /// The next token, or `None` once the whole input has been scanned.
    pub fn next(&mut self) -> (r: Option<Token<'a>>)
        requires
            old(self).wf(),
        ensures
            final(self).wf(),
            final(self).input() == old(self).input(),
            old(self).position() < old(self).input().len() ==> {
                &&& r is Some
                &&& lex_from(old(self).input(), old(self).position()) == seq![r->0@]
                    + lex_from(final(self).input(), final(self).position())
            },
            old(self).position() >= old(self).input().len() ==> {
                &&& r is None
                &&& final(self).position() == old(self).position()
            },
    {
        if self.pos < self.chars.len() {
            let t = self.next_token();
            proof {
                lemma_token_at_bounds(self.input(), old(self).position());
            }
            Some(t)
        } else {
            None
        }
    }
}

/// All tokens of `source`, in order.
pub fn tokenize<'a>(source: &'a str) -> (r: Vec<Token<'a>>)
    ensures
        r@.map_values(|t: Token<'a>| t@) == lex(source@),
{
    let mut lexer = Lexer::new(source);
    let mut tokens: Vec<Token<'a>> = Vec::new();
    while lexer.pos < lexer.chars.len()
        invariant
            lexer.wf(),
            lexer.input() == source@,
            tokens@.map_values(|t: Token<'a>| t@) + lex_from(source@, lexer.position()) == lex(
                source@,
            ),
        decreases source@.len() - lexer.position(),
    {
        let ghost before = tokens@.map_values(|t: Token<'a>| t@);
        let ghost p = lexer.position();
        let t = lexer.next_token();
        proof {
            lemma_token_at_bounds(source@, p);
        }
        tokens.push(t);
        assert(tokens@.map_values(|t: Token<'a>| t@) =~= before.push(t@));
        assert(before.push(t@) + lex_from(source@, lexer.position()) =~= before + lex_from(
            source@,
            p,
        ));
    }
    assert(lex_from(source@, lexer.position()) =~= seq![]);
    assert(tokens@.map_values(|t: Token<'a>| t@) =~= lex(source@));
    tokens
}

} // verus!

verus! {

/// The texts of `ts`, concatenated in order.
pub open spec fn concat_texts<K>(ts: Seq<(K, Seq<char>)>) -> Seq<char>
    decreases ts.len(),
{
    if ts.len() == 0 {
        seq![]
    } else {
        ts[0].1 + concat_texts(ts.drop_first())
    }
}

/// Concatenation distributes over appending token sequences.
pub proof fn lemma_concat_texts_append<K>(a: Seq<(K, Seq<char>)>, b: Seq<(K, Seq<char>)>)
    ensures
        concat_texts(a + b) == concat_texts(a) + concat_texts(b),
    decreases a.len(),
{
    if a.len() == 0 {
        assert(a + b =~= b);
        assert(concat_texts(a) + concat_texts(b) =~= concat_texts(b));
    } else {
        lemma_concat_texts_append(a.drop_first(), b);
        assert((a + b).drop_first() =~= a.drop_first() + b);
        assert(a[0].1 + (concat_texts(a.drop_first()) + concat_texts(b)) =~= (a[0].1
            + concat_texts(a.drop_first())) + concat_texts(b));
    }
}

/// Appending one token appends its text.
pub proof fn lemma_concat_texts_push<K>(a: Seq<(K, Seq<char>)>, x: (K, Seq<char>))
    ensures
        concat_texts(a.push(x)) == concat_texts(a) + x.1,
{
    lemma_concat_texts_append(a, seq![x]);
    assert(a + seq![x] =~= a.push(x));
    let one = seq![x];
    assert(one.drop_first() =~= Seq::<(K, Seq<char>)>::empty());
    assert(concat_texts(one.drop_first()) =~= Seq::<char>::empty());
    assert(concat_texts(one) == one[0].1 + concat_texts(one.drop_first()));
    assert(concat_texts(one) =~= x.1);
}

/// Two token sequences with the same texts have the same concatenation.
pub proof fn lemma_concat_texts_same_texts<K, L>(a: Seq<(K, Seq<char>)>, b: Seq<(L, Seq<char>)>)
    requires
        a.len() == b.len(),
        forall|i: int| 0 <= i < a.len() ==> a[i].1 == b[i].1,
    ensures
        concat_texts(a) == concat_texts(b),
    decreases a.len(),
{
    if a.len() > 0 {
        lemma_concat_texts_same_texts(a.drop_first(), b.drop_first());
    }
}

/// The character ranges `[start, end)` of the tokens of `s` from `i` on.
pub open spec fn spans_from(s: Seq<char>, i: int) -> Seq<(int, int)>
    decreases s.len() - i,
{
    if 0 <= i < s.len() {
        let e = token_at(s, i).1;
        if i < e <= s.len() {
            seq![(i, e)] + spans_from(s, e)
        } else {
            seq![]
        }
    } else {
        seq![]
    }
}

/// The tokens from `i` on reproduce the rest of the input exactly.
pub proof fn lemma_lex_from_lossless(s: Seq<char>, i: int)
    requires
        0 <= i <= s.len(),
    ensures
        concat_texts(lex_from(s, i)) == s.subrange(i, s.len() as int),
    decreases s.len() - i,
{
    if i < s.len() {
        lemma_token_at_bounds(s, i);
        let e = token_at(s, i).1;
        lemma_lex_from_lossless(s, e);
        let ts = lex_from(s, i);
        assert(ts.drop_first() =~= lex_from(s, e));
        assert(s.subrange(i, e) + s.subrange(e, s.len() as int) =~= s.subrange(
            i,
            s.len() as int,
        ));
    } else {
        assert(s.subrange(i, s.len() as int) =~= seq![]);
    }
}

/// Lossless round trip: the texts of all tokens of `s`, concatenated in
/// order, are `s` itself.
pub proof fn lemma_lex_lossless(s: Seq<char>)
    ensures
        concat_texts(lex(s)) == s,
{
    lemma_lex_from_lossless(s, 0);
    assert(s.subrange(0, s.len() as int) =~= s);
}

/// The spans of the tokens from `i` on partition `[i, s.len())`, and each
/// token's text is the input on its span.
pub proof fn lemma_spans_from_partition(s: Seq<char>, i: int)
    requires
        0 <= i <= s.len(),
    ensures
        spans_from(s, i).len() == lex_from(s, i).len(),
        spans_from(s, i).len() == 0 <==> i == s.len(),
        spans_from(s, i).len() > 0 ==> spans_from(s, i)[0].0 == i && spans_from(s, i).last().1
            == s.len(),
        forall|k: int|
            0 <= k < spans_from(s, i).len() ==> {
                &&& i <= (#[trigger] spans_from(s, i)[k]).0 < spans_from(s, i)[k].1 <= s.len()
                &&& lex_from(s, i)[k].1 == s.subrange(spans_from(s, i)[k].0, spans_from(s, i)[k].1)
            },
        forall|k: int|
            0 <= k < spans_from(s, i).len() - 1 ==> (#[trigger] spans_from(s, i)[k]).1
                == spans_from(s, i)[k + 1].0,
    decreases s.len() - i,
{
    if i < s.len() {
        lemma_token_at_bounds(s, i);
        let e = token_at(s, i).1;
        lemma_spans_from_partition(s, e);
        let sp = spans_from(s, i);
        let ts = lex_from(s, i);
        let rest = spans_from(s, e);
        assert(sp =~= seq![(i, e)] + rest);
        assert forall|k: int| 0 < k < sp.len() implies sp[k] == rest[k - 1] && ts[k] == lex_from(
            s,
            e,
        )[k - 1] by {}
        assert forall|k: int| 0 <= k < sp.len() - 1 implies (#[trigger] sp[k]).1 == sp[k + 1].0 by {
            if k > 0 {
                assert(sp[k] == rest[k - 1]);
                assert(sp[k + 1] == rest[k]);
            }
        }
        if rest.len() > 0 {
            assert(sp.last() == rest.last());
        }
    }
}

/// Total coverage: the token spans of `s` partition its whole range, with no
/// gap and no overlap, and each token's text is the input on its span.
pub proof fn lemma_lex_coverage(s: Seq<char>)
    ensures
        spans_from(s, 0).len() == lex(s).len(),
        s.len() == 0 <==> lex(s).len() == 0,
        lex(s).len() > 0 ==> spans_from(s, 0)[0].0 == 0 && spans_from(s, 0).last().1 == s.len(),
        forall|k: int|
            0 <= k < lex(s).len() ==> {
                &&& (#[trigger] spans_from(s, 0)[k]).0 < spans_from(s, 0)[k].1
                &&& lex(s)[k].1 == s.subrange(spans_from(s, 0)[k].0, spans_from(s, 0)[k].1)
            },
        forall|k: int|
            0 <= k < lex(s).len() - 1 ==> (#[trigger] spans_from(s, 0)[k]).1 == spans_from(
                s,
                0,
            )[k + 1].0,
{
    lemma_spans_from_partition(s, 0);
}

/// Keyword exactness: a token that starts with an identifier character is
/// the maximal run of identifier characters, and it is the keyword exactly
/// when that whole run is `fn`; otherwise it is a plain identifier.
pub proof fn lemma_keyword_exact_general(s: Seq<char>, i: int)
    requires
        0 <= i < s.len(),
        id_start(s[i]),
    ensures
        token_at(s, i).1 == ident_end(s, i + 1),
        token_at(s, i).0 == TokenKind::Fn <==> s.subrange(i, token_at(s, i).1) == seq!['f', 'n'],
        token_at(s, i).0 != TokenKind::Fn ==> token_at(s, i).0 == TokenKind::Ident,
{
    lemma_ident_end(s, i + 1);
    let e = ident_end(s, i + 1);
    let t = s.subrange(i, e);
    if t == seq!['f', 'n'] {
        assert(t.len() == 2);
        assert(t[0] == s[i]);
        assert(t[1] == s[i + 1]);
    }
    if e == i + 2 && s[i] == 'f' && s[i + 1] == 'n' {
        assert(t =~= seq!['f', 'n']);
    }
}

/// Keyword exactness: `fn` is the keyword, while `fn2`, `Fn` and `_fn` are
/// plain identifiers.
pub proof fn lemma_keyword_exact()
    ensures
        lex(seq!['f', 'n']) == seq![(TokenKind::Fn, seq!['f', 'n'])],
        lex(seq!['f', 'n', '2']) == seq![(TokenKind::Ident, seq!['f', 'n', '2'])],
        lex(seq!['F', 'n']) == seq![(TokenKind::Ident, seq!['F', 'n'])],
        lex(seq!['_', 'f', 'n']) == seq![(TokenKind::Ident, seq!['_', 'f', 'n'])],
{
    reveal_with_fuel(ident_end, 4);
    reveal_with_fuel(lex_from, 2);
    let a = seq!['f', 'n'];
    let b = seq!['f', 'n', '2'];
    let c = seq!['F', 'n'];
    let d = seq!['_', 'f', 'n'];
    assert(a.subrange(0, 2) =~= a);
    assert(b.subrange(0, 3) =~= b);
    assert(c.subrange(0, 2) =~= c);
    assert(d.subrange(0, 3) =~= d);
    assert(lex(a) =~= seq![(TokenKind::Fn, a)]);
    assert(lex(b) =~= seq![(TokenKind::Ident, b)]);
    assert(lex(c) =~= seq![(TokenKind::Ident, c)]);
    assert(lex(d) =~= seq![(TokenKind::Ident, d)]);
}

} // verus!
