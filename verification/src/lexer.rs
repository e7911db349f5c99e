use vstd::prelude::*;

verus! {

use crate::tokens::{wf_token_seq, Token, TokenKind};
use vstd::string::{StrSliceExecFns, StringExecFns};

// ---------------------------------------------------------------------------
// Character classes
// ---------------------------------------------------------------------------

/// A decimal digit.
pub open spec fn is_digit(c: char) -> bool {
    48 <= c as u32 && c as u32 <= 57
}

/// A character that may appear in an identifier: a letter, `_`, `\`, `'`,
/// and, beyond the first position, also a digit.
pub open spec fn is_symbol_char(c: char, beginning: bool) -> bool {
    ||| 65 <= c as u32 && c as u32 <= 90
    ||| 97 <= c as u32 && c as u32 <= 122
    ||| c == '_'
    ||| c == '\\'
    ||| c == '\''
    ||| !beginning && is_digit(c)
}

/// Checks whether a character is a decimal digit.
pub fn is_number(c: char) -> (r: bool)
    ensures
        r == is_digit(c),
{
    let u = c as u32;
    48 <= u && u <= 57
}

/// Checks whether a character may appear in an identifier.
pub fn is_symbol(c: char, beginning: bool) -> (r: bool)
    ensures
        r == is_symbol_char(c, beginning),
{
    let u = c as u32;
    (65 <= u && u <= 90) || (97 <= u && u <= 122) || c == '_' || c == '\\' || c == '\''
        || (!beginning && is_number(c))
}

// ---------------------------------------------------------------------------
// Sequence helpers: the source with carriage returns removed, line counting,
// token text concatenation, and black-list filtering
// ---------------------------------------------------------------------------

/// The character sequence with every carriage return removed; the lexer
/// works on this normalized form of the source.
pub open spec fn keep_non_cr(s: Seq<char>) -> Seq<char>
    decreases s.len(),
{
    if s.len() == 0 {
        Seq::empty()
    } else if s.last() == '\r' {
        keep_non_cr(s.drop_last())
    } else {
        keep_non_cr(s.drop_last()).push(s.last())
    }
}

/// How many line breaks a character sequence holds.
pub open spec fn count_nl(s: Seq<char>) -> nat
    decreases s.len(),
{
    if s.len() == 0 {
        0
    } else {
        count_nl(s.drop_last()) + (if s.last() == '\n' {
            1nat
        } else {
            0nat
        })
    }
}

/// The literal text of a token sequence, concatenated in order.
pub open spec fn concat_values(toks: Seq<Token>) -> Seq<char>
    decreases toks.len(),
{
    if toks.len() == 0 {
        Seq::empty()
    } else {
        concat_values(toks.drop_last()) + toks.last().value@
    }
}

/// The tokens that survive suppression by the black list, in order.
pub open spec fn kept_tokens(toks: Seq<Token>, black_list: Seq<TokenKind>) -> Seq<Token>
    decreases toks.len(),
{
    if toks.len() == 0 {
        Seq::empty()
    } else if black_list.contains(toks.last().kind) {
        kept_tokens(toks.drop_last(), black_list)
    } else {
        kept_tokens(toks.drop_last(), black_list).push(toks.last())
    }
}

/// Every token carries the number of line breaks in the text up to and
/// including its own span: filtering tokens out never disturbs the line
/// numbers of the ones that remain.
pub open spec fn lines_ok(toks: Seq<Token>) -> bool {
    forall|i: int|
        0 <= i < toks.len() ==> (#[trigger] toks[i]).line == count_nl(
            concat_values(toks.take(i + 1)),
        )
}

/// No token of the sequence is the end-of-file sentinel.
pub open spec fn no_eof(toks: Seq<Token>) -> bool {
    forall|i: int| 0 <= i < toks.len() ==> (#[trigger] toks[i]).kind != TokenKind::EndOfFile
}

/// How a kept token sequence arises from a full scan of a source: some full
/// stream covers the source text exactly, carries correct line numbers, holds
/// no sentinel, and the kept sequence is its black-list filtering.
pub open spec fn lexed_from(
    all: Seq<Token>,
    kept: Seq<Token>,
    src: Seq<char>,
    black_list: Seq<TokenKind>,
) -> bool {
    &&& concat_values(all) == src
    &&& kept == kept_tokens(all, black_list)
    &&& lines_ok(all)
    &&& no_eof(all)
    &&& shapes_ok(all)
}

// ---------------------------------------------------------------------------
// Where the lexer finds a token: the error characterization
// ---------------------------------------------------------------------------

/// A character that alone forms a fixed one-character pattern.
pub open spec fn is_single_pattern_char(c: char) -> bool {
    ||| c == '\n'
    ||| c == '\t'
    ||| c == ' '
    ||| c == '['
    ||| c == ']'
    ||| c == '{'
    ||| c == '}'
    ||| c == '('
    ||| c == ')'
    ||| c == '='
    ||| c == '!'
    ||| c == '<'
    ||| c == '>'
    ||| c == '.'
    ||| c == ';'
    ||| c == ':'
    ||| c == '?'
    ||| c == ','
    ||| c == '+'
    ||| c == '-'
    ||| c == '/'
    ||| c == '*'
    ||| c == '%'
}

/// Whether some lexing rule applies at this position: a digit, a string
/// opening, an identifier start, a fixed pattern, or the two-character
/// operators whose single character is no pattern of its own.
pub open spec fn lexable_at(src: Seq<char>, pos: int) -> bool {
    ||| is_digit(src[pos])
    ||| src[pos] == '"'
    ||| src[pos] == '$' && pos + 1 < src.len() && src[pos + 1] == '"'
    ||| is_symbol_char(src[pos], true)
    ||| is_single_pattern_char(src[pos])
    ||| src[pos] == '|' && pos + 1 < src.len() && src[pos + 1] == '|'
    ||| src[pos] == '&' && pos + 1 < src.len() && src[pos + 1] == '&'
}

// ---------------------------------------------------------------------------
// What a token's text looks like, given its kind
// ---------------------------------------------------------------------------

/// Identifier-shaped text: a symbol-start character followed by symbol
/// continuation characters.
pub open spec fn symbol_shaped(v: Seq<char>) -> bool {
    &&& v.len() >= 1
    &&& is_symbol_char(v[0], true)
    &&& forall|j: int| 1 <= j < v.len() ==> is_symbol_char(#[trigger] v[j], false)
}

/// The kind a scanned word lexes to: its reserved-word kind, or identifier.
pub open spec fn word_kind(v: Seq<char>) -> TokenKind {
    match lookup_kind(reserved_table(), v) {
        Some(k) => k,
        None => TokenKind::Identifier,
    }
}

/// How a token's kind constrains its text: numbers are digits with embedded
/// dots, comments open with two slashes and hold no line break, strings open
/// with a quote or a marked quote, words carry exactly the kind their text
/// looks up to, and fixed punctuation is an entry of the pattern table.
pub open spec fn kind_value_shape(kind: TokenKind, v: Seq<char>) -> bool {
    match kind {
        TokenKind::Number => v.len() >= 1 && is_digit(v[0]) && (forall|j: int|
            0 <= j < v.len() ==> is_digit(#[trigger] v[j]) || v[j] == '.'),
        TokenKind::Comment => v.len() >= 2 && v[0] == '/' && v[1] == '/' && (forall|j: int|
            0 <= j < v.len() ==> #[trigger] v[j] != '\n'),
        TokenKind::String => v.len() >= 1 && (v[0] == '"' || (v.len() >= 2 && v[0] == '$' && v[1]
            == '"')),
        TokenKind::Identifier => symbol_shaped(v) && kind == word_kind(v),
        TokenKind::Mut => symbol_shaped(v) && kind == word_kind(v),
        TokenKind::Out => symbol_shaped(v) && kind == word_kind(v),
        TokenKind::Let => symbol_shaped(v) && kind == word_kind(v),
        TokenKind::Const => symbol_shaped(v) && kind == word_kind(v),
        TokenKind::Enum => symbol_shaped(v) && kind == word_kind(v),
        TokenKind::Class => symbol_shaped(v) && kind == word_kind(v),
        TokenKind::Pub => symbol_shaped(v) && kind == word_kind(v),
        TokenKind::Mod => symbol_shaped(v) && kind == word_kind(v),
        TokenKind::As => symbol_shaped(v) && kind == word_kind(v),
        TokenKind::New => symbol_shaped(v) && kind == word_kind(v),
        TokenKind::Import => symbol_shaped(v) && kind == word_kind(v),
        TokenKind::Fn => symbol_shaped(v) && kind == word_kind(v),
        TokenKind::In => symbol_shaped(v) && kind == word_kind(v),
        TokenKind::If => symbol_shaped(v) && kind == word_kind(v),
        TokenKind::Else => symbol_shaped(v) && kind == word_kind(v),
        TokenKind::For => symbol_shaped(v) && kind == word_kind(v),
        TokenKind::While => symbol_shaped(v) && kind == word_kind(v),
        TokenKind::Return => symbol_shaped(v) && kind == word_kind(v),
        TokenKind::EndOfFile => true,
        _ => pattern_table().contains((kind, v)),
    }
}

/// A token whose text fits its kind.
pub open spec fn token_shape(t: Token) -> bool {
    kind_value_shape(t.kind, t.value@)
}

/// Every token of the sequence fits its kind.
pub open spec fn shapes_ok(toks: Seq<Token>) -> bool {
    forall|i: int| 0 <= i < toks.len() ==> token_shape(#[trigger] toks[i])
}

// ---------------------------------------------------------------------------
// Lemmas about the sequence helpers
// ---------------------------------------------------------------------------

pub proof fn lemma_count_nl_le(s: Seq<char>)
    ensures
        count_nl(s) <= s.len(),
    decreases s.len(),
{
    if s.len() > 0 {
        lemma_count_nl_le(s.drop_last());
    }
}

pub proof fn lemma_count_nl_add(a: Seq<char>, b: Seq<char>)
    ensures
        count_nl(a + b) == count_nl(a) + count_nl(b),
    decreases b.len(),
{
    if b.len() == 0 {
        assert(a + b =~= a);
    } else {
        lemma_count_nl_add(a, b.drop_last());
        assert((a + b).drop_last() =~= a + b.drop_last());
        assert((a + b).last() == b.last());
    }
}

pub proof fn lemma_take_extend(s: Seq<char>, p: int, q: int)
    requires
        0 <= p <= q <= s.len(),
    ensures
        s.take(q) == s.take(p) + s.subrange(p, q),
{
    assert(s.take(q) =~= s.take(p) + s.subrange(p, q));
}

pub proof fn lemma_concat_push(toks: Seq<Token>, t: Token)
    ensures
        concat_values(toks.push(t)) == concat_values(toks) + t.value@,
{
    assert(toks.push(t).drop_last() =~= toks);
    assert(toks.push(t).last() == t);
}

pub proof fn lemma_kept_push(toks: Seq<Token>, black_list: Seq<TokenKind>, t: Token)
    ensures
        kept_tokens(toks.push(t), black_list) == if black_list.contains(t.kind) {
            kept_tokens(toks, black_list)
        } else {
            kept_tokens(toks, black_list).push(t)
        },
{
    assert(toks.push(t).drop_last() =~= toks);
    assert(toks.push(t).last() == t);
}

pub proof fn lemma_lines_push(toks: Seq<Token>, t: Token)
    requires
        lines_ok(toks),
        t.line == count_nl(concat_values(toks) + t.value@),
    ensures
        lines_ok(toks.push(t)),
{
    let ext = toks.push(t);
    assert forall|i: int| 0 <= i < ext.len() implies (#[trigger] ext[i]).line == count_nl(
        concat_values(ext.take(i + 1)),
    ) by {
        if i < toks.len() {
            assert(ext.take(i + 1) =~= toks.take(i + 1));
        } else {
            assert(ext.take(i + 1) =~= toks.push(t));
            lemma_concat_push(toks, t);
        }
    }
}

/// The filtered sequence keeps only tokens of the full stream: suppression by
/// an empty black list keeps everything.
pub proof fn lemma_kept_empty(toks: Seq<Token>)
    ensures
        kept_tokens(toks, Seq::<TokenKind>::empty()) == toks,
    decreases toks.len(),
{
    if toks.len() > 0 {
        lemma_kept_empty(toks.drop_last());
        assert(kept_tokens(toks, Seq::<TokenKind>::empty()) =~= toks);
    }
}

/// Every kept token avoids the black list, and a property of every token of
/// the full stream holds of every kept token.
pub proof fn lemma_kept_members(toks: Seq<Token>, black_list: Seq<TokenKind>)
    ensures
        forall|i: int|
            0 <= i < kept_tokens(toks, black_list).len() ==> !black_list.contains(
                (#[trigger] kept_tokens(toks, black_list)[i]).kind,
            ),
        no_eof(toks) ==> no_eof(kept_tokens(toks, black_list)),
        shapes_ok(toks) ==> shapes_ok(kept_tokens(toks, black_list)),
    decreases toks.len(),
{
    if toks.len() > 0 {
        lemma_kept_members(toks.drop_last(), black_list);
        if no_eof(toks) {
            assert(no_eof(toks.drop_last()));
        }
        if shapes_ok(toks) {
            assert(shapes_ok(toks.drop_last()));
        }
    }
}

// ---------------------------------------------------------------------------
// Exec helper: black-list membership
// ---------------------------------------------------------------------------

fn contains_kind(list: &Vec<TokenKind>, kind: TokenKind) -> (r: bool)
    ensures
        r == list@.contains(kind),
{
    let n = list.len();
    let mut i: usize = 0;
    while i < n
        invariant
            i <= n,
            n == list@.len(),
            forall|j: int| 0 <= j < i ==> list@[j] != kind,
        decreases n - i,
    {
        if list[i] == kind {
            return true;
        }
        i = i + 1;
    }
    false
}

// ---------------------------------------------------------------------------
// Fixed patterns and reserved words
// ---------------------------------------------------------------------------

/// Whether the given text stands at this position of the source.
pub open spec fn pattern_matches_at(src: Seq<char>, pos: int, pv: Seq<char>) -> bool {
    pos + pv.len() <= src.len() && src.subrange(pos, pos + pv.len()) == pv
}

/// The ordered table of fixed punctuation and operator patterns; each
/// multi-character operator stands before its single-character prefix, so the
/// longest match wins.
pub open spec fn pattern_table() -> Seq<(TokenKind, Seq<char>)> {
    seq![
        (TokenKind::NextLine, seq!['\n']),
        (TokenKind::Tab, seq!['\t']),
        (TokenKind::WhiteSpace, seq![' ']),
        (TokenKind::OpenBracket, seq!['[']),
        (TokenKind::CloseBracket, seq![']']),
        (TokenKind::OpenCurly, seq!['{']),
        (TokenKind::CloseCurly, seq!['}']),
        (TokenKind::CloseParen, seq![')']),
        (TokenKind::OpenParen, seq!['(']),
        (TokenKind::Equals, seq!['=', '=']),
        (TokenKind::NotEquals, seq!['!', '=']),
        (TokenKind::Assignment, seq!['=']),
        (TokenKind::Arrow, seq!['-', '>']),
        (TokenKind::Not, seq!['!']),
        (TokenKind::LessEquals, seq!['<', '=']),
        (TokenKind::Less, seq!['<']),
        (TokenKind::GreaterEquals, seq!['>', '=']),
        (TokenKind::Greater, seq!['>']),
        (TokenKind::Or, seq!['|', '|']),
        (TokenKind::And, seq!['&', '&']),
        (TokenKind::DotDot, seq!['.', '.']),
        (TokenKind::Dot, seq!['.']),
        (TokenKind::SemiColon, seq![';']),
        (TokenKind::Colon, seq![':']),
        (TokenKind::Question, seq!['?']),
        (TokenKind::Comma, seq![',']),
        (TokenKind::PlusPlus, seq!['+', '+']),
        (TokenKind::MinusMinus, seq!['-', '-']),
        (TokenKind::PlusEquals, seq!['+', '=']),
        (TokenKind::MinusEquals, seq!['-', '=']),
        (TokenKind::Plus, seq!['+']),
        (TokenKind::Minus, seq!['-']),
        (TokenKind::Slash, seq!['/']),
        (TokenKind::Star, seq!['*']),
        (TokenKind::Percent, seq!['%']),
    ]
}

/// The kind and text of each pattern of a sequence.
pub open spec fn pattern_views(ps: Seq<Pattern>) -> Seq<(TokenKind, Seq<char>)> {
    ps.map_values(|p: Pattern| (p.kind, p.value@))
}

/// The reserved words and the keyword kind each one lexes to.
pub open spec fn reserved_table() -> Seq<(Seq<char>, TokenKind)> {
    seq![
        ("mut"@, TokenKind::Mut),
        ("out"@, TokenKind::Out),
        ("let"@, TokenKind::Let),
        ("const"@, TokenKind::Const),
        ("enum"@, TokenKind::Enum),
        ("class"@, TokenKind::Class),
        ("pub"@, TokenKind::Pub),
        ("mod"@, TokenKind::Mod),
        ("new"@, TokenKind::New),
        ("as"@, TokenKind::As),
        ("import"@, TokenKind::Import),
        ("fn"@, TokenKind::Fn),
        ("in"@, TokenKind::In),
        ("if"@, TokenKind::If),
        ("else"@, TokenKind::Else),
        ("for"@, TokenKind::For),
        ("while"@, TokenKind::While),
        ("return"@, TokenKind::Return),
    ]
}

/// The text and kind of each reserved-word entry.
pub open spec fn reserved_views(es: Seq<(String, TokenKind)>) -> Seq<(Seq<char>, TokenKind)> {
    es.map_values(|e: (String, TokenKind)| (e.0@, e.1))
}

/// The keyword kind of a word, by the first table entry whose text matches.
pub open spec fn lookup_kind(tbl: Seq<(Seq<char>, TokenKind)>, s: Seq<char>) -> Option<TokenKind>
    decreases tbl.len(),
{
    if tbl.len() == 0 {
        None
    } else if tbl[0].0 == s {
        Some(tbl[0].1)
    } else {
        lookup_kind(tbl.skip(1), s)
    }
}

/// A word looked up in a table free of the sentinel never maps to it.
proof fn lemma_lookup_no_eof(tbl: Seq<(Seq<char>, TokenKind)>, s: Seq<char>)
    requires
        forall|i: int| 0 <= i < tbl.len() ==> (#[trigger] tbl[i]).1 != TokenKind::EndOfFile,
    ensures
        lookup_kind(tbl, s) != Some(TokenKind::EndOfFile),
    decreases tbl.len(),
{
    if tbl.len() > 0 && tbl[0].0 != s {
        lemma_lookup_no_eof(tbl.skip(1), s);
    }
}

/// A looked-up kind is the kind of some table entry.
proof fn lemma_lookup_some_in(tbl: Seq<(Seq<char>, TokenKind)>, s: Seq<char>)
    requires
        lookup_kind(tbl, s) is Some,
    ensures
        exists|i: int|
            0 <= i < tbl.len() && (#[trigger] tbl[i]).1 == lookup_kind(tbl, s).unwrap(),
    decreases tbl.len(),
{
    if tbl.len() > 0 && tbl[0].0 != s {
        lemma_lookup_some_in(tbl.skip(1), s);
        let j = choose|j: int|
            0 <= j < tbl.skip(1).len() && (#[trigger] tbl.skip(1)[j]).1 == lookup_kind(
                tbl.skip(1),
                s,
            ).unwrap();
        assert(tbl[j + 1] == tbl.skip(1)[j]);
    }
}

/// A kind the word scanner can emit.
pub open spec fn is_word_token_kind(k: TokenKind) -> bool {
    match k {
        TokenKind::Identifier => true,
        TokenKind::Mut => true,
        TokenKind::Out => true,
        TokenKind::Let => true,
        TokenKind::Const => true,
        TokenKind::Enum => true,
        TokenKind::Class => true,
        TokenKind::Pub => true,
        TokenKind::Mod => true,
        TokenKind::As => true,
        TokenKind::New => true,
        TokenKind::Import => true,
        TokenKind::Fn => true,
        TokenKind::In => true,
        TokenKind::If => true,
        TokenKind::Else => true,
        TokenKind::For => true,
        TokenKind::While => true,
        TokenKind::Return => true,
        _ => false,
    }
}

/// Identifier-shaped text carries the kind its lookup gives it.
proof fn lemma_word_kind_shape(v: Seq<char>)
    requires
        symbol_shaped(v),
    ensures
        kind_value_shape(word_kind(v), v),
{
    if lookup_kind(reserved_table(), v) is Some {
        lemma_lookup_some_in(reserved_table(), v);
        assert(forall|i: int|
            0 <= i < reserved_table().len() ==> is_word_token_kind(
                (#[trigger] reserved_table()[i]).1,
            ));
    }
}

/// Builds the reserved-word table.
pub fn reserved_symbols() -> (r: Vec<(String, TokenKind)>)
    ensures
        reserved_views(r@) == reserved_table(),
        forall|i: int|
            0 <= i < reserved_table().len() ==> (#[trigger] reserved_table()[i]).1
                != TokenKind::EndOfFile,
{
    let mut r: Vec<(String, TokenKind)> = Vec::new();
    r.push((String::from_str("mut"), TokenKind::Mut));
    r.push((String::from_str("out"), TokenKind::Out));
    r.push((String::from_str("let"), TokenKind::Let));
    r.push((String::from_str("const"), TokenKind::Const));
    r.push((String::from_str("enum"), TokenKind::Enum));
    r.push((String::from_str("class"), TokenKind::Class));
    r.push((String::from_str("pub"), TokenKind::Pub));
    r.push((String::from_str("mod"), TokenKind::Mod));
    r.push((String::from_str("new"), TokenKind::New));
    r.push((String::from_str("as"), TokenKind::As));
    r.push((String::from_str("import"), TokenKind::Import));
    r.push((String::from_str("fn"), TokenKind::Fn));
    r.push((String::from_str("in"), TokenKind::In));
    r.push((String::from_str("if"), TokenKind::If));
    r.push((String::from_str("else"), TokenKind::Else));
    r.push((String::from_str("for"), TokenKind::For));
    r.push((String::from_str("while"), TokenKind::While));
    r.push((String::from_str("return"), TokenKind::Return));
    proof {
        assert(reserved_views(r@) =~= reserved_table());
    }
    r
}

/// One fixed pattern: its kind, its text as characters, and the same text
/// as a string for the emitted token.
pub struct Pattern {
    pub kind: TokenKind,
    pub value: Vec<char>,
    pub value_string: String,
}

/// A pattern's two spellings agree, it is nonempty, and it is no sentinel.
pub open spec fn pattern_wf(p: Pattern) -> bool {
    &&& p.value@ == p.value_string@
    &&& p.value@.len() >= 1
    &&& p.kind != TokenKind::EndOfFile
}

impl Pattern {
    /// Builds a pattern from its text.
    fn new(kind: TokenKind, value: &str) -> (p: Pattern)
        requires
            value@.len() >= 1,
            kind != TokenKind::EndOfFile,
        ensures
            p.kind == kind,
            p.value@ == value@,
            pattern_wf(p),
    {
        let n = value.unicode_len();
        let mut chars: Vec<char> = Vec::new();
        let mut i: usize = 0;
        while i < n
            invariant
                i <= n,
                n == value@.len(),
                chars@ == value@.take(i as int),
            decreases n - i,
        {
            let c = value.get_char(i);
            proof {
                assert(value@.take(i + 1).drop_last() =~= value@.take(i as int));
                assert(value@.take(i + 1).last() == value@[i as int]);
            }
            chars.push(c);
            i = i + 1;
        }
        proof {
            assert(value@.take(n as int) =~= value@);
        }
        Pattern { kind, value: chars, value_string: value.to_owned() }
    }

    /// Emits this pattern's token at the cursor, which must stand on exactly
    /// this pattern's text.
    pub fn on_match_non_number(&self, lex: &mut Lexer)
        requires
            pattern_wf(*self),
            pattern_table().contains((self.kind, self.value@)),
            old(lex).wf(),
            pattern_matches_at(old(lex).source@, old(lex).pos as int, self.value@),
        ensures
            final(lex).wf(),
            final(lex).pos == old(lex).pos + self.value@.len(),
            final(lex).source == old(lex).source,
            final(lex).black_list == old(lex).black_list,
            final(lex).all@ == old(lex).all@.push(
                Token {
                    kind: self.kind,
                    value: self.value_string,
                    line: count_nl(
                        old(lex).source@.take(old(lex).pos + self.value@.len()),
                    ) as usize,
                },
            ),
            final(lex).tokens@ == (if old(lex).black_list@.contains(self.kind) {
                old(lex).tokens@
            } else {
                old(lex).tokens@.push(
                    Token {
                        kind: self.kind,
                        value: self.value_string,
                        line: count_nl(
                            old(lex).source@.take(old(lex).pos + self.value@.len()),
                        ) as usize,
                    },
                )
            }),
    {
        let copy = self.value_string.clone();
        proof {
            assert(copy == self.value_string);
        }
        lex.emit(self.kind, copy);
    }
}

// ---------------------------------------------------------------------------
// The scanner as a function: which tokens a source lexes to
// ---------------------------------------------------------------------------

/// The model of a token: its kind, its text, and its line.
pub open spec fn token_model(t: Token) -> (TokenKind, Seq<char>, int) {
    (t.kind, t.value@, t.line as int)
}

/// The models of a token sequence, in order.
pub open spec fn tokens_model(ts: Seq<Token>) -> Seq<(TokenKind, Seq<char>, int)>
    decreases ts,
{
    if ts.len() == 0 {
        Seq::empty()
    } else {
        tokens_model(ts.drop_last()).push(token_model(ts.last()))
    }
}

/// The token models that survive suppression by the black list.
pub open spec fn kept_models(
    ms: Seq<(TokenKind, Seq<char>, int)>,
    black_list: Seq<TokenKind>,
) -> Seq<(TokenKind, Seq<char>, int)>
    decreases ms,
{
    if ms.len() == 0 {
        Seq::empty()
    } else if black_list.contains(ms.last().0) {
        kept_models(ms.drop_last(), black_list)
    } else {
        kept_models(ms.drop_last(), black_list).push(ms.last())
    }
}

/// Filtering commutes with taking models.
proof fn lemma_kept_models(ts: Seq<Token>, black_list: Seq<TokenKind>)
    ensures
        tokens_model(kept_tokens(ts, black_list)) == kept_models(tokens_model(ts), black_list),
    decreases ts,
{
    if ts.len() > 0 {
        lemma_kept_models(ts.drop_last(), black_list);
        assert(tokens_model(ts).drop_last() =~= tokens_model(ts.drop_last()));
        if !black_list.contains(ts.last().kind) {
            assert(tokens_model(kept_tokens(ts.drop_last(), black_list).push(ts.last()))
                == tokens_model(kept_tokens(ts.drop_last(), black_list)).push(
                token_model(ts.last()),
            )) by {
                assert(kept_tokens(ts.drop_last(), black_list).push(ts.last()).drop_last()
                    =~= kept_tokens(ts.drop_last(), black_list));
            }
        }
    }
}

/// Where the inside of a string literal begins: past the quote, or past the
/// interpolation marker and the quote.
pub open spec fn string_body(src: Seq<char>, pos: int) -> int {
    if src[pos] == '$' {
        pos + 2
    } else {
        pos + 1
    }
}

/// The model of the comment token beginning at a position.
pub open spec fn comment_token_model(src: Seq<char>, pos: int) -> (TokenKind, Seq<char>, int) {
    (
        TokenKind::Comment,
        src.subrange(pos, comment_end(src, pos)),
        count_nl(src.take(comment_end(src, pos))) as int,
    )
}

/// Appending one token appends its model.
proof fn lemma_model_push(ts: Seq<Token>, t: Token)
    ensures
        tokens_model(ts.push(t)) == tokens_model(ts).push(token_model(t)),
{
    assert(ts.push(t).drop_last() =~= ts);
    assert(ts.push(t).last() == t);
}

/// Where a numeric literal ends: digits, and at most one embedded dot whose
/// follower is neither missing nor another dot.
pub open spec fn number_end(src: Seq<char>, j: int, seen_dot: bool) -> int
    decreases src.len() - j,
{
    if !(0 <= j < src.len()) {
        j
    } else if is_digit(src[j]) {
        number_end(src, j + 1, seen_dot)
    } else if src[j] == '.' && !seen_dot && j + 1 < src.len() && src[j + 1] != '.' {
        number_end(src, j + 1, true)
    } else {
        j
    }
}

/// Where a comment ends: the next line break, or the end of the source.
pub open spec fn comment_end(src: Seq<char>, j: int) -> int
    decreases src.len() - j,
{
    if !(0 <= j < src.len()) {
        j
    } else if src[j] == '\n' {
        j
    } else {
        comment_end(src, j + 1)
    }
}

/// Where a string literal ends, scanning from inside the quotes: just past
/// the first closing quote, or the end of the source.
pub open spec fn string_end(src: Seq<char>, j: int) -> int
    decreases src.len() - j,
{
    if !(0 <= j < src.len()) {
        j
    } else if src[j] == '"' {
        j + 1
    } else {
        string_end(src, j + 1)
    }
}

/// Where an identifier ends: the first non-continuation character.
pub open spec fn symbol_end(src: Seq<char>, j: int) -> int
    decreases src.len() - j,
{
    if !(0 <= j < src.len()) {
        j
    } else if is_symbol_char(src[j], false) {
        symbol_end(src, j + 1)
    } else {
        j
    }
}

/// The first pattern of the table, from the given entry on, whose text
/// stands at this position, with the position after it.
pub open spec fn first_pattern_from(src: Seq<char>, pos: int, k: int) -> Option<(TokenKind, int)>
    decreases pattern_table().len() - k,
{
    if !(0 <= k < pattern_table().len()) {
        None
    } else if pattern_matches_at(src, pos, pattern_table()[k].1) {
        Some((pattern_table()[k].0, pos + pattern_table()[k].1.len()))
    } else {
        first_pattern_from(src, pos, k + 1)
    }
}

proof fn lemma_number_end_ge(src: Seq<char>, j: int, seen_dot: bool)
    ensures
        number_end(src, j, seen_dot) >= j,
    decreases src.len() - j,
{
    if 0 <= j < src.len() {
        if is_digit(src[j]) {
            lemma_number_end_ge(src, j + 1, seen_dot);
        } else if src[j] == '.' && !seen_dot && j + 1 < src.len() && src[j + 1] != '.' {
            lemma_number_end_ge(src, j + 1, true);
        }
    }
}

proof fn lemma_comment_end_ge(src: Seq<char>, j: int)
    ensures
        comment_end(src, j) >= j,
    decreases src.len() - j,
{
    if 0 <= j < src.len() && src[j] != '\n' {
        lemma_comment_end_ge(src, j + 1);
    }
}

proof fn lemma_string_end_ge(src: Seq<char>, j: int)
    ensures
        string_end(src, j) >= j,
    decreases src.len() - j,
{
    if 0 <= j < src.len() && src[j] != '"' {
        lemma_string_end_ge(src, j + 1);
    }
}

proof fn lemma_number_end_le(src: Seq<char>, j: int, seen_dot: bool)
    requires
        j <= src.len(),
    ensures
        number_end(src, j, seen_dot) <= src.len(),
    decreases src.len() - j,
{
    if 0 <= j < src.len() {
        if is_digit(src[j]) {
            lemma_number_end_le(src, j + 1, seen_dot);
        } else if src[j] == '.' && !seen_dot && j + 1 < src.len() && src[j + 1] != '.' {
            lemma_number_end_le(src, j + 1, true);
        }
    }
}

proof fn lemma_comment_end_le(src: Seq<char>, j: int)
    requires
        j <= src.len(),
    ensures
        comment_end(src, j) <= src.len(),
    decreases src.len() - j,
{
    if 0 <= j < src.len() && src[j] != '\n' {
        lemma_comment_end_le(src, j + 1);
    }
}

proof fn lemma_string_end_le(src: Seq<char>, j: int)
    requires
        j <= src.len(),
    ensures
        string_end(src, j) <= src.len(),
    decreases src.len() - j,
{
    if 0 <= j < src.len() && src[j] != '"' {
        lemma_string_end_le(src, j + 1);
    }
}

proof fn lemma_symbol_end_le(src: Seq<char>, j: int)
    requires
        j <= src.len(),
    ensures
        symbol_end(src, j) <= src.len(),
    decreases src.len() - j,
{
    if 0 <= j < src.len() && is_symbol_char(src[j], false) {
        lemma_symbol_end_le(src, j + 1);
    }
}

proof fn lemma_symbol_end_ge(src: Seq<char>, j: int)
    ensures
        symbol_end(src, j) >= j,
    decreases src.len() - j,
{
    if 0 <= j < src.len() && is_symbol_char(src[j], false) {
        lemma_symbol_end_ge(src, j + 1);
    }
}

proof fn lemma_first_pattern_past(src: Seq<char>, pos: int, k: int)
    ensures
        first_pattern_from(src, pos, k) matches Some(p) ==> pos < p.1 <= src.len(),
    decreases pattern_table().len() - k,
{
    if 0 <= k < pattern_table().len() {
        if pattern_matches_at(src, pos, pattern_table()[k].1) {
            assert(forall|m: int|
                0 <= m < pattern_table().len() ==> (#[trigger] pattern_table()[m]).1.len() >= 1);
        } else {
            lemma_first_pattern_past(src, pos, k + 1);
        }
    }
}

/// Where the first match sits, the search from an earlier entry finds it.
proof fn lemma_first_pattern_at(src: Seq<char>, pos: int, k: int, pi: int)
    requires
        0 <= k <= pi < pattern_table().len(),
        forall|m: int|
            k <= m < pi ==> !pattern_matches_at(src, pos, (#[trigger] pattern_table()[m]).1),
        pattern_matches_at(src, pos, pattern_table()[pi].1),
    ensures
        first_pattern_from(src, pos, k) == Some(
            (pattern_table()[pi].0, pos + pattern_table()[pi].1.len()),
        ),
    decreases pi - k,
{
    if k < pi {
        lemma_first_pattern_at(src, pos, k + 1, pi);
    }
}

/// Where nothing matches, the search finds nothing.
proof fn lemma_first_pattern_none(src: Seq<char>, pos: int, k: int)
    requires
        forall|m: int|
            k <= m < pattern_table().len() ==> !pattern_matches_at(
                src,
                pos,
                (#[trigger] pattern_table()[m]).1,
            ),
    ensures
        first_pattern_from(src, pos, k) is None,
    decreases pattern_table().len() - k,
{
    if 0 <= k < pattern_table().len() {
        lemma_first_pattern_none(src, pos, k + 1);
    }
}

/// The token stream a source scans to from a position: each recognition
/// rule in the lexer's priority order, or the first position where no rule
/// applies. Each token carries its text and the number of line breaks up to
/// its own end.
pub open spec fn scan(src: Seq<char>, pos: int) -> Result<Seq<(TokenKind, Seq<char>, int)>, int>
    decreases src.len() - pos, 0int
    via scan_decreases
{
    if !(0 <= pos < src.len()) {
        Ok(Seq::empty())
    } else if is_digit(src[pos]) {
        scan_cons(
            (
                TokenKind::Number,
                src.subrange(pos, number_end(src, pos + 1, false)),
                count_nl(src.take(number_end(src, pos + 1, false))) as int,
            ),
            scan(src, number_end(src, pos + 1, false)),
        )
    } else if src[pos] == '/' && pos + 1 < src.len() && src[pos + 1] == '/' {
        if comment_end(src, pos) < src.len() {
            scan_cons(
                (
                    TokenKind::Comment,
                    src.subrange(pos, comment_end(src, pos)),
                    count_nl(src.take(comment_end(src, pos))) as int,
                ),
                scan_cons(
                    (
                        TokenKind::NextLine,
                        seq!['\n'],
                        count_nl(src.take(comment_end(src, pos) + 1)) as int,
                    ),
                    scan(src, comment_end(src, pos) + 1),
                ),
            )
        } else {
            scan_cons(
                (
                    TokenKind::Comment,
                    src.subrange(pos, comment_end(src, pos)),
                    count_nl(src.take(comment_end(src, pos))) as int,
                ),
                scan(src, comment_end(src, pos)),
            )
        }
    } else if src[pos] == '"' || (src[pos] == '$' && pos + 1 < src.len() && src[pos + 1] == '"') {
        scan_cons(
            (
                TokenKind::String,
                src.subrange(
                    pos,
                    string_end(
                        src,
                        if src[pos] == '$' {
                            pos + 2
                        } else {
                            pos + 1
                        },
                    ),
                ),
                count_nl(
                    src.take(
                        string_end(
                            src,
                            if src[pos] == '$' {
                                pos + 2
                            } else {
                                pos + 1
                            },
                        ),
                    ),
                ) as int,
            ),
            scan(
                src,
                string_end(
                    src,
                    if src[pos] == '$' {
                        pos + 2
                    } else {
                        pos + 1
                    },
                ),
            ),
        )
    } else if is_symbol_char(src[pos], true) {
        scan_cons(
            (
                word_kind(src.subrange(pos, symbol_end(src, pos + 1))),
                src.subrange(pos, symbol_end(src, pos + 1)),
                count_nl(src.take(symbol_end(src, pos + 1))) as int,
            ),
            scan(src, symbol_end(src, pos + 1)),
        )
    } else {
        match first_pattern_from(src, pos, 0) {
            Some(p) => scan_cons(
                (p.0, src.subrange(pos, p.1), count_nl(src.take(p.1)) as int),
                scan(src, p.1),
            ),
            None => Err(pos),
        }
    }
}

/// Prepends a token model to a scan result.
pub open spec fn scan_cons(
    t: (TokenKind, Seq<char>, int),
    r: Result<Seq<(TokenKind, Seq<char>, int)>, int>,
) -> Result<Seq<(TokenKind, Seq<char>, int)>, int> {
    match r {
        Ok(rest) => Ok(seq![t] + rest),
        Err(p) => Err(p),
    }
}

#[via_fn]
proof fn scan_decreases(src: Seq<char>, pos: int) {
    lemma_number_end_ge(src, pos + 1, false);
    lemma_comment_end_ge(src, pos);
    lemma_string_end_ge(src, pos + 1);
    lemma_string_end_ge(src, pos + 2);
    lemma_symbol_end_ge(src, pos + 1);
    lemma_first_pattern_past(src, pos, 0);
    if 0 <= pos < src.len() {
        lemma_number_end_le(src, pos + 1, false);
        lemma_comment_end_le(src, pos);
        lemma_string_end_le(src, pos + 1);
        if pos + 2 <= src.len() {
            lemma_string_end_le(src, pos + 2);
        }
        lemma_symbol_end_le(src, pos + 1);
    }
}

// ---------------------------------------------------------------------------
// The lexer state
// ---------------------------------------------------------------------------

/// The lexer's cursor over the normalized source, the tokens collected so
/// far, and the kinds to suppress. The ghost field `all` records the full
/// unsuppressed stream, which covers the consumed text exactly.
pub struct Lexer {
    pub tokens: Vec<Token>,
    pub source: Vec<char>,
    pub pos: usize,
    pub current_line: usize,
    pub black_list: Vec<TokenKind>,
    pub all: Ghost<Seq<Token>>,
}

impl Lexer {
    /// The lexer's invariant: the full stream covers the consumed prefix of
    /// the source character for character, the collected tokens are its
    /// black-list filtering, the line counter equals the number of line
    /// breaks consumed, and no emitted token is the sentinel.
    pub open spec fn wf(&self) -> bool {
        &&& self.pos <= self.source@.len()
        &&& self.current_line == count_nl(self.source@.take(self.pos as int))
        &&& concat_values(self.all@) == self.source@.take(self.pos as int)
        &&& self.tokens@ == kept_tokens(self.all@, self.black_list@)
        &&& lines_ok(self.all@)
        &&& no_eof(self.all@)
        &&& shapes_ok(self.all@)
    }

    /// Builds a lexer over the source text with every carriage return
    /// dropped, positioned at the start.
    pub fn new(source: String, black_list: Vec<TokenKind>) -> (l: Lexer)
        ensures
            l.wf(),
            l.source@ == keep_non_cr(source@),
            l.pos == 0,
            l.current_line == 0,
            l.tokens@ == Seq::<Token>::empty(),
            l.all@ == Seq::<Token>::empty(),
            l.black_list == black_list,
    {
        let n = source.as_str().unicode_len();
        let mut chars: Vec<char> = Vec::new();
        let mut i: usize = 0;
        while i < n
            invariant
                i <= n,
                n == source@.len(),
                chars@ == keep_non_cr(source@.take(i as int)),
            decreases n - i,
        {
            let c = source.as_str().get_char(i);
            proof {
                assert(source@.take(i + 1).drop_last() =~= source@.take(i as int));
                assert(source@.take(i + 1).last() == source@[i as int]);
            }
            if c != '\r' {
                chars.push(c);
            }
            i = i + 1;
        }
        proof {
            assert(source@.take(n as int) =~= source@);
        }
        let l = Lexer {
            tokens: Vec::new(),
            source: chars,
            pos: 0,
            current_line: 0,
            black_list,
            all: Ghost(Seq::empty()),
        };
        proof {
            assert(l.source@.take(0) =~= Seq::<char>::empty());
            assert(concat_values(l.all@) =~= l.source@.take(0));
        }
        l
    }

    /// Moves the cursor forward, counting the line breaks it passes.
    pub fn advance(&mut self, amount: usize)
        requires
            old(self).pos + amount <= old(self).source@.len(),
            old(self).current_line <= old(self).pos,
        ensures
            final(self).pos == old(self).pos + amount,
            final(self).current_line == old(self).current_line + count_nl(
                old(self).source@.subrange(old(self).pos as int, old(self).pos + amount),
            ),
            final(self).current_line <= final(self).pos,
            final(self).source == old(self).source,
            final(self).tokens == old(self).tokens,
            final(self).black_list == old(self).black_list,
            final(self).all == old(self).all,
    {
        let _bound = self.source.len();
        let end = self.pos + amount;
        let ghost p0 = self.pos as int;
        let mut i = self.pos;
        proof {
            assert(self.source@.subrange(p0, p0) =~= Seq::<char>::empty());
        }
        while i < end
            invariant
                old(self).pos <= i <= end,
                end == old(self).pos + amount,
                p0 == old(self).pos as int,
                end <= self.source@.len(),
                self.source == old(self).source,
                self.tokens == old(self).tokens,
                self.black_list == old(self).black_list,
                self.all == old(self).all,
                self.pos == old(self).pos,
                old(self).current_line <= old(self).pos,
                self.current_line == old(self).current_line + count_nl(
                    self.source@.subrange(p0, i as int),
                ),
            decreases end - i,
        {
            proof {
                lemma_count_nl_le(self.source@.subrange(p0, i as int));
                assert(self.source@.subrange(p0, i + 1).drop_last() =~= self.source@.subrange(
                    p0,
                    i as int,
                ));
                assert(self.source@.subrange(p0, i + 1).last() == self.source@[i as int]);
            }
            if self.source[i] == '\n' {
                self.current_line = self.current_line + 1;
            }
            i = i + 1;
        }
        self.pos = end;
        proof {
            lemma_count_nl_le(self.source@.subrange(p0, end as int));
        }
    }

    /// Records a token in the full stream and keeps it unless its kind is
    /// black-listed.
    pub fn push(&mut self, token: Token)
        ensures
            final(self).all@ == old(self).all@.push(token),
            final(self).tokens@ == if old(self).black_list@.contains(token.kind) {
                old(self).tokens@
            } else {
                old(self).tokens@.push(token)
            },
            final(self).source == old(self).source,
            final(self).pos == old(self).pos,
            final(self).current_line == old(self).current_line,
            final(self).black_list == old(self).black_list,
    {
        let ghost t = token;
        self.all = Ghost(self.all@.push(t));
        if !contains_kind(&self.black_list, token.kind) {
            self.tokens.push(token);
        }
    }

    /// The character under the cursor.
    fn at(&self) -> (c: char)
        requires
            self.pos < self.source@.len(),
        ensures
            c == self.source@[self.pos as int],
    {
        self.source[self.pos]
    }

    /// Whether the whole source has been consumed.
    fn eof(&self) -> (r: bool)
        ensures
            r == (self.pos >= self.source@.len()),
    {
        self.pos >= self.source.len()
    }

    /// The unconsumed remainder of the source.
    pub fn reminder(&self) -> (r: String)
        requires
            self.pos <= self.source@.len(),
        ensures
            r@ == self.source@.skip(self.pos as int),
    {
        let ghost p0 = self.pos as int;
        let mut s = String::new();
        let n = self.source.len();
        let mut i = self.pos;
        proof {
            assert(self.source@.subrange(p0, p0) =~= Seq::<char>::empty());
        }
        while i < n
            invariant
                self.pos <= i <= n,
                p0 == self.pos as int,
                n == self.source@.len(),
                s@ == self.source@.subrange(p0, i as int),
            decreases n - i,
        {
            proof {
                assert(self.source@.subrange(p0, i + 1).drop_last() =~= self.source@.subrange(
                    p0,
                    i as int,
                ));
                assert(self.source@.subrange(p0, i + 1).last() == self.source@[i as int]);
            }
            s.push(self.source[i]);
            i = i + 1;
        }
        proof {
            assert(self.source@.skip(p0) =~= self.source@.subrange(p0, n as int));
        }
        s
    }

    /// Advances past the given text, which must be exactly what stands at
    /// the cursor, and records it as one token: the one place that restores
    /// the lexer's invariant.
    fn emit(&mut self, kind: TokenKind, value: String)
        requires
            old(self).wf(),
            kind != TokenKind::EndOfFile,
            kind_value_shape(kind, value@),
            value@.len() >= 1,
            old(self).pos + value@.len() <= old(self).source@.len(),
            value@ == old(self).source@.subrange(
                old(self).pos as int,
                old(self).pos + value@.len(),
            ),
        ensures
            final(self).wf(),
            final(self).pos == old(self).pos + value@.len(),
            final(self).source == old(self).source,
            final(self).black_list == old(self).black_list,
            final(self).all@ == old(self).all@.push(
                Token {
                    kind,
                    value,
                    line: count_nl(
                        old(self).source@.take(old(self).pos + value@.len()),
                    ) as usize,
                },
            ),
            final(self).tokens@ == (if old(self).black_list@.contains(kind) {
                old(self).tokens@
            } else {
                old(self).tokens@.push(
                    Token {
                        kind,
                        value,
                        line: count_nl(
                            old(self).source@.take(old(self).pos + value@.len()),
                        ) as usize,
                    },
                )
            }),
    {
        let ghost p0 = old(self).pos as int;
        let ghost p1 = p0 + value@.len();
        let ghost src = old(self).source@;
        proof {
            lemma_count_nl_le(src.take(p0));
            assert(src.take(p0).len() == p0);
        }
        let n = value.as_str().unicode_len();
        self.advance(n);
        let line = self.current_line;
        let ghost all0 = self.all@;
        let ghost tok = Token { kind, value: value, line };
        proof {
            lemma_take_extend(src, p0, p1);
            lemma_count_nl_add(src.take(p0), src.subrange(p0, p1));
            assert(self.current_line == count_nl(src.take(p1)));
        }
        self.push(Token { kind, value, line });
        proof {
            lemma_count_nl_le(src.take(p1));
            assert(line == count_nl(src.take(p1)) as usize);
            assert(self.all@ == all0.push(tok));
            lemma_concat_push(all0, tok);
            assert(concat_values(self.all@) == src.take(p1));
            lemma_kept_push(all0, self.black_list@, tok);
            lemma_lines_push(all0, tok);
            assert forall|i: int| 0 <= i < self.all@.len() implies (#[trigger] self.all@[i]).kind
                != TokenKind::EndOfFile by {
                if i < all0.len() {
                    assert(self.all@[i] == all0[i]);
                }
            }
            assert forall|i: int| 0 <= i < self.all@.len() implies token_shape(
                #[trigger] self.all@[i],
            ) by {
                if i < all0.len() {
                    assert(self.all@[i] == all0[i]);
                } else {
                    assert(self.all@[i] == tok);
                }
            }
        }
    }
}

impl Lexer {
    /// The fixed patterns, in recognition order.
    fn get_patterns() -> (r: Vec<Pattern>)
        ensures
            pattern_views(r@) == pattern_table(),
            forall|i: int| 0 <= i < r@.len() ==> pattern_wf(#[trigger] r@[i]),
    {
        proof {
            reveal_strlit("\n");
            reveal_strlit("\t");
            reveal_strlit(" ");
            reveal_strlit("[");
            reveal_strlit("]");
            reveal_strlit("{");
            reveal_strlit("}");
            reveal_strlit(")");
            reveal_strlit("(");
            reveal_strlit("==");
            reveal_strlit("!=");
            reveal_strlit("=");
            reveal_strlit("->");
            reveal_strlit("!");
            reveal_strlit("<=");
            reveal_strlit("<");
            reveal_strlit(">=");
            reveal_strlit(">");
            reveal_strlit("||");
            reveal_strlit("&&");
            reveal_strlit("..");
            reveal_strlit(".");
            reveal_strlit(";");
            reveal_strlit(":");
            reveal_strlit("?");
            reveal_strlit(",");
            reveal_strlit("++");
            reveal_strlit("--");
            reveal_strlit("+=");
            reveal_strlit("-=");
            reveal_strlit("+");
            reveal_strlit("-");
            reveal_strlit("/");
            reveal_strlit("*");
            reveal_strlit("%");
        }
        let mut r: Vec<Pattern> = Vec::new();
        r.push(Pattern::new(TokenKind::NextLine, "\n"));
        r.push(Pattern::new(TokenKind::Tab, "\t"));
        r.push(Pattern::new(TokenKind::WhiteSpace, " "));
        r.push(Pattern::new(TokenKind::OpenBracket, "["));
        r.push(Pattern::new(TokenKind::CloseBracket, "]"));
        r.push(Pattern::new(TokenKind::OpenCurly, "{"));
        r.push(Pattern::new(TokenKind::CloseCurly, "}"));
        r.push(Pattern::new(TokenKind::CloseParen, ")"));
        r.push(Pattern::new(TokenKind::OpenParen, "("));
        r.push(Pattern::new(TokenKind::Equals, "=="));
        r.push(Pattern::new(TokenKind::NotEquals, "!="));
        r.push(Pattern::new(TokenKind::Assignment, "="));
        r.push(Pattern::new(TokenKind::Arrow, "->"));
        r.push(Pattern::new(TokenKind::Not, "!"));
        r.push(Pattern::new(TokenKind::LessEquals, "<="));
        r.push(Pattern::new(TokenKind::Less, "<"));
        r.push(Pattern::new(TokenKind::GreaterEquals, ">="));
        r.push(Pattern::new(TokenKind::Greater, ">"));
        r.push(Pattern::new(TokenKind::Or, "||"));
        r.push(Pattern::new(TokenKind::And, "&&"));
        r.push(Pattern::new(TokenKind::DotDot, ".."));
        r.push(Pattern::new(TokenKind::Dot, "."));
        r.push(Pattern::new(TokenKind::SemiColon, ";"));
        r.push(Pattern::new(TokenKind::Colon, ":"));
        r.push(Pattern::new(TokenKind::Question, "?"));
        r.push(Pattern::new(TokenKind::Comma, ","));
        r.push(Pattern::new(TokenKind::PlusPlus, "++"));
        r.push(Pattern::new(TokenKind::MinusMinus, "--"));
        r.push(Pattern::new(TokenKind::PlusEquals, "+="));
        r.push(Pattern::new(TokenKind::MinusEquals, "-="));
        r.push(Pattern::new(TokenKind::Plus, "+"));
        r.push(Pattern::new(TokenKind::Minus, "-"));
        r.push(Pattern::new(TokenKind::Slash, "/"));
        r.push(Pattern::new(TokenKind::Star, "*"));
        r.push(Pattern::new(TokenKind::Percent, "%"));
        proof {
            assert(r@.len() == 35);
            assert forall|i: int| 0 <= i < 35 implies pattern_views(r@)[i] == pattern_table()[i]
                && pattern_wf(#[trigger] r@[i]) by {
            if i == 0 {
                assert(pattern_views(r@)[0] == pattern_table()[0]);
            }
            if i == 1 {
                assert(pattern_views(r@)[1] == pattern_table()[1]);
            }
            if i == 2 {
                assert(pattern_views(r@)[2] == pattern_table()[2]);
            }
            if i == 3 {
                assert(pattern_views(r@)[3] == pattern_table()[3]);
            }
            if i == 4 {
                assert(pattern_views(r@)[4] == pattern_table()[4]);
            }
            if i == 5 {
                assert(pattern_views(r@)[5] == pattern_table()[5]);
            }
            if i == 6 {
                assert(pattern_views(r@)[6] == pattern_table()[6]);
            }
            if i == 7 {
                assert(pattern_views(r@)[7] == pattern_table()[7]);
            }
            if i == 8 {
                assert(pattern_views(r@)[8] == pattern_table()[8]);
            }
            if i == 9 {
                assert(pattern_views(r@)[9] == pattern_table()[9]);
            }
            if i == 10 {
                assert(pattern_views(r@)[10] == pattern_table()[10]);
            }
            if i == 11 {
                assert(pattern_views(r@)[11] == pattern_table()[11]);
            }
            if i == 12 {
                assert(pattern_views(r@)[12] == pattern_table()[12]);
            }
            if i == 13 {
                assert(pattern_views(r@)[13] == pattern_table()[13]);
            }
            if i == 14 {
                assert(pattern_views(r@)[14] == pattern_table()[14]);
            }
            if i == 15 {
                assert(pattern_views(r@)[15] == pattern_table()[15]);
            }
            if i == 16 {
                assert(pattern_views(r@)[16] == pattern_table()[16]);
            }
            if i == 17 {
                assert(pattern_views(r@)[17] == pattern_table()[17]);
            }
            if i == 18 {
                assert(pattern_views(r@)[18] == pattern_table()[18]);
            }
            if i == 19 {
                assert(pattern_views(r@)[19] == pattern_table()[19]);
            }
            if i == 20 {
                assert(pattern_views(r@)[20] == pattern_table()[20]);
            }
            if i == 21 {
                assert(pattern_views(r@)[21] == pattern_table()[21]);
            }
            if i == 22 {
                assert(pattern_views(r@)[22] == pattern_table()[22]);
            }
            if i == 23 {
                assert(pattern_views(r@)[23] == pattern_table()[23]);
            }
            if i == 24 {
                assert(pattern_views(r@)[24] == pattern_table()[24]);
            }
            if i == 25 {
                assert(pattern_views(r@)[25] == pattern_table()[25]);
            }
            if i == 26 {
                assert(pattern_views(r@)[26] == pattern_table()[26]);
            }
            if i == 27 {
                assert(pattern_views(r@)[27] == pattern_table()[27]);
            }
            if i == 28 {
                assert(pattern_views(r@)[28] == pattern_table()[28]);
            }
            if i == 29 {
                assert(pattern_views(r@)[29] == pattern_table()[29]);
            }
            if i == 30 {
                assert(pattern_views(r@)[30] == pattern_table()[30]);
            }
            if i == 31 {
                assert(pattern_views(r@)[31] == pattern_table()[31]);
            }
            if i == 32 {
                assert(pattern_views(r@)[32] == pattern_table()[32]);
            }
            if i == 33 {
                assert(pattern_views(r@)[33] == pattern_table()[33]);
            }
            if i == 34 {
                assert(pattern_views(r@)[34] == pattern_table()[34]);
            }
            }
            assert(pattern_views(r@) =~= pattern_table());
        }
        r
    }
}

// ---------------------------------------------------------------------------
// The scanning handlers
// ---------------------------------------------------------------------------

/// Scans a numeric literal: digits and at most one embedded dot, where a dot
/// followed by another dot is left alone so that ranges like `0..5` survive.
fn handle_number_tokenization(lexer: &mut Lexer)
    requires
        old(lexer).wf(),
        old(lexer).pos < old(lexer).source@.len(),
        is_digit(old(lexer).source@[old(lexer).pos as int]),
    ensures
        final(lexer).wf(),
        final(lexer).pos > old(lexer).pos,
        final(lexer).source == old(lexer).source,
        final(lexer).black_list == old(lexer).black_list,
        final(lexer).pos == number_end(old(lexer).source@, old(lexer).pos + 1, false),
        tokens_model(final(lexer).all@) == tokens_model(old(lexer).all@).push(
            (
                TokenKind::Number,
                old(lexer).source@.subrange(
                    old(lexer).pos as int,
                    number_end(old(lexer).source@, old(lexer).pos + 1, false),
                ),
                count_nl(
                    old(lexer).source@.take(
                        number_end(old(lexer).source@, old(lexer).pos + 1, false),
                    ),
                ) as int,
            ),
        ),
{
    let ghost src = old(lexer).source@;
    let ghost p0 = old(lexer).pos as int;
    let n = lexer.source.len();
    let mut value = String::new();
    let mut j = lexer.pos;
    value.push(lexer.source[j]);
    j = j + 1;
    let mut seen_dot = false;
    proof {
        assert(value@ =~= src.subrange(p0, j as int));
    }
    loop
        invariant
            *lexer == *old(lexer),
            src == lexer.source@,
            p0 == lexer.pos as int,
            n == src.len(),
            p0 < j <= n,
            value@ == src.subrange(p0, j as int),
            forall|k: int| p0 <= k < j ==> is_digit(#[trigger] src[k]) || src[k] == '.',
            number_end(src, p0 + 1, false) == number_end(src, j as int, seen_dot),
        ensures
            *lexer == *old(lexer),
            src == lexer.source@,
            p0 == lexer.pos as int,
            n == src.len(),
            p0 < j <= n,
            value@ == src.subrange(p0, j as int),
            forall|k: int| p0 <= k < j ==> is_digit(#[trigger] src[k]) || src[k] == '.',
            number_end(src, p0 + 1, false) == j as int,
        decreases n - j,
    {
        if j >= n {
            break;
        }
        let c = lexer.source[j];
        if is_number(c) {
            value.push(c);
            proof {
                assert(src.subrange(p0, j + 1) =~= src.subrange(p0, j as int).push(
                    src[j as int],
                ));
            }
            j = j + 1;
        } else if c == '.' && !seen_dot && j + 1 < n && lexer.source[j + 1] != '.' {
            value.push(c);
            proof {
                assert(src.subrange(p0, j + 1) =~= src.subrange(p0, j as int).push(
                    src[j as int],
                ));
            }
            seen_dot = true;
            j = j + 1;
        } else {
            break;
        }
    }
    proof {
        assert(value@.len() == j - p0);
        assert forall|m: int| 0 <= m < value@.len() implies is_digit(#[trigger] value@[m])
            || value@[m] == '.' by {
            assert(value@[m] == src[p0 + m]);
        }
    }
    let ghost all0 = lexer.all@;
    lexer.emit(TokenKind::Number, value);
    proof {
        lemma_model_push(all0, lexer.all@.last());
        lemma_count_nl_le(src.take(j as int));
    }
}

/// Scans a line comment and, when a line break follows it, that break too,
/// so that stripping comments never merges two lines.
fn handle_comments(lexer: &mut Lexer)
    requires
        old(lexer).wf(),
        old(lexer).pos + 1 < old(lexer).source@.len(),
        old(lexer).source@[old(lexer).pos as int] == '/',
        old(lexer).source@[old(lexer).pos as int + 1] == '/',
    ensures
        final(lexer).wf(),
        final(lexer).pos > old(lexer).pos,
        final(lexer).source == old(lexer).source,
        final(lexer).black_list == old(lexer).black_list,
        final(lexer).pos == (if comment_end(old(lexer).source@, old(lexer).pos as int) < old(
            lexer,
        ).source@.len() {
            comment_end(old(lexer).source@, old(lexer).pos as int) + 1
        } else {
            comment_end(old(lexer).source@, old(lexer).pos as int)
        }),
        tokens_model(final(lexer).all@) == (if comment_end(
            old(lexer).source@,
            old(lexer).pos as int,
        ) < old(lexer).source@.len() {
            tokens_model(old(lexer).all@).push(comment_token_model(old(lexer).source@, old(lexer).pos as int)).push(
                (
                    TokenKind::NextLine,
                    seq!['\n'],
                    count_nl(
                        old(lexer).source@.take(
                            comment_end(old(lexer).source@, old(lexer).pos as int) + 1,
                        ),
                    ) as int,
                ),
            )
        } else {
            tokens_model(old(lexer).all@).push(comment_token_model(old(lexer).source@, old(lexer).pos as int))
        }),
{
    let ghost src = old(lexer).source@;
    let ghost p0 = old(lexer).pos as int;
    let n = lexer.source.len();
    let mut value = String::new();
    let mut j = lexer.pos;
    proof {
        assert(value@ =~= src.subrange(p0, p0));
    }
    while j < n && lexer.source[j] != '\n'
        invariant
            *lexer == *old(lexer),
            src == lexer.source@,
            p0 == lexer.pos as int,
            n == src.len(),
            p0 <= j <= n,
            value@ == src.subrange(p0, j as int),
            forall|k: int| p0 <= k < j ==> #[trigger] src[k] != '\n',
            comment_end(src, p0) == comment_end(src, j as int),
        decreases n - j,
    {
        value.push(lexer.source[j]);
        proof {
            assert(src.subrange(p0, j + 1) =~= src.subrange(p0, j as int).push(src[j as int]));
        }
        j = j + 1;
    }
    proof {
        assert(j != p0 && j != p0 + 1);
        assert(value@.len() == j - p0);
        assert(value@[0] == src[p0]);
        assert(value@[1] == src[p0 + 1]);
        assert forall|m: int| 0 <= m < value@.len() implies #[trigger] value@[m] != '\n' by {
            assert(value@[m] == src[p0 + m]);
        }
        assert(comment_end(src, j as int) == j as int);
        lemma_count_nl_le(src.take(j as int));
    }
    let ghost all0 = lexer.all@;
    lexer.emit(TokenKind::Comment, value);
    proof {
        lemma_model_push(all0, lexer.all@.last());
    }
    if lexer.pos < n {
        let mut nl = String::new();
        nl.push('\n');
        proof {
            assert(src[j as int] == '\n');
            assert(nl@ =~= src.subrange(j as int, j + 1));
            assert(pattern_table()[0] == (TokenKind::NextLine, nl@));
            assert(pattern_table().contains((TokenKind::NextLine, nl@)));
            lemma_count_nl_le(src.take(j + 1));
        }
        let ghost all1 = lexer.all@;
        lexer.emit(TokenKind::NextLine, nl);
        proof {
            lemma_model_push(all1, lexer.all@.last());
        }
    }
}

/// Scans a string literal from its opening quote, or interpolation marker
/// followed by a quote, through the first closing quote; the token keeps the
/// marker and the quotes verbatim.
fn handle_strings(lexer: &mut Lexer)
    requires
        old(lexer).wf(),
        old(lexer).pos < old(lexer).source@.len(),
        old(lexer).source@[old(lexer).pos as int] == '"' || (old(lexer).source@[old(
            lexer,
        ).pos as int] == '$' && old(lexer).pos + 1 < old(lexer).source@.len() && old(
            lexer,
        ).source@[old(lexer).pos as int + 1] == '"'),
    ensures
        final(lexer).wf(),
        final(lexer).pos > old(lexer).pos,
        final(lexer).source == old(lexer).source,
        final(lexer).black_list == old(lexer).black_list,
        final(lexer).pos == string_end(old(lexer).source@, string_body(old(lexer).source@, old(lexer).pos as int)),
        tokens_model(final(lexer).all@) == tokens_model(old(lexer).all@).push(
            (
                TokenKind::String,
                old(lexer).source@.subrange(
                    old(lexer).pos as int,
                    string_end(
                        old(lexer).source@,
                        string_body(old(lexer).source@, old(lexer).pos as int),
                    ),
                ),
                count_nl(
                    old(lexer).source@.take(
                        string_end(
                            old(lexer).source@,
                            string_body(old(lexer).source@, old(lexer).pos as int),
                        ),
                    ),
                ) as int,
            ),
        ),
{
    let ghost src = old(lexer).source@;
    let ghost p0 = old(lexer).pos as int;
    let ghost bstart = string_body(src, p0);
    let n = lexer.source.len();
    let mut value = String::new();
    let mut j = lexer.pos;
    let c0 = lexer.source[j];
    value.push(c0);
    j = j + 1;
    proof {
        assert(value@ =~= src.subrange(p0, j as int));
    }
    if c0 == '$' {
        value.push(lexer.source[j]);
        proof {
            assert(src.subrange(p0, j + 1) =~= src.subrange(p0, j as int).push(src[j as int]));
        }
        j = j + 1;
    }
    proof {
        assert(j as int == bstart);
    }
    loop
        invariant_except_break
            string_end(src, bstart) == string_end(src, j as int),
        invariant
            *lexer == *old(lexer),
            src == lexer.source@,
            p0 == lexer.pos as int,
            n == src.len(),
            p0 < j <= n,
            bstart == string_body(src, p0),
            value@ == src.subrange(p0, j as int),
            src[p0] == '$' ==> j >= p0 + 2,
        ensures
            *lexer == *old(lexer),
            src == lexer.source@,
            p0 == lexer.pos as int,
            n == src.len(),
            p0 < j <= n,
            value@ == src.subrange(p0, j as int),
            src[p0] == '$' ==> j >= p0 + 2,
            string_end(src, bstart) == j as int,
        decreases n - j,
    {
        if j >= n {
            break;
        }
        let c = lexer.source[j];
        value.push(c);
        proof {
            assert(src.subrange(p0, j + 1) =~= src.subrange(p0, j as int).push(src[j as int]));
        }
        j = j + 1;
        if c == '"' {
            break;
        }
    }
    proof {
        assert(value@.len() == j - p0);
        assert(value@[0] == src[p0]);
        if src[p0] == '$' {
            assert(value@[1] == src[p0 + 1]);
        }
        lemma_count_nl_le(src.take(j as int));
    }
    let ghost all0 = lexer.all@;
    lexer.emit(TokenKind::String, value);
    proof {
        lemma_model_push(all0, lexer.all@.last());
    }
}

/// The keyword kind of a word, by the first matching table entry.
fn lookup_reserved(reserved: &Vec<(String, TokenKind)>, value: &String) -> (r: Option<TokenKind>)
    ensures
        r == lookup_kind(reserved_views(reserved@), value@),
{
    let ghost tv = reserved_views(reserved@);
    let n = reserved.len();
    let mut i: usize = 0;
    proof {
        assert(tv.skip(0) =~= tv);
    }
    while i < n
        invariant
            i <= n,
            n == reserved@.len(),
            tv == reserved_views(reserved@),
            tv.len() == n,
            lookup_kind(tv, value@) == lookup_kind(tv.skip(i as int), value@),
        decreases n - i,
    {
        proof {
            assert(tv.skip(i as int)[0] == tv[i as int]);
            assert(tv[i as int] == (reserved@[i as int].0@, reserved@[i as int].1));
            assert(tv.skip(i as int).skip(1) =~= tv.skip(i as int + 1));
        }
        if reserved[i].0 == *value {
            return Some(reserved[i].1);
        }
        i = i + 1;
    }
    proof {
        assert(tv.skip(n as int) =~= Seq::<(Seq<char>, TokenKind)>::empty());
    }
    None
}

/// Scans an identifier and emits the matching keyword kind where the word is
/// reserved, an identifier token otherwise.
fn handle_symbols(lexer: &mut Lexer, reserved: &Vec<(String, TokenKind)>)
    requires
        old(lexer).wf(),
        old(lexer).pos < old(lexer).source@.len(),
        is_symbol_char(old(lexer).source@[old(lexer).pos as int], true),
        reserved_views(reserved@) == reserved_table(),
    ensures
        final(lexer).wf(),
        final(lexer).pos > old(lexer).pos,
        final(lexer).source == old(lexer).source,
        final(lexer).black_list == old(lexer).black_list,
        final(lexer).pos == symbol_end(old(lexer).source@, old(lexer).pos + 1),
        tokens_model(final(lexer).all@) == tokens_model(old(lexer).all@).push(
            (
                word_kind(
                    old(lexer).source@.subrange(
                        old(lexer).pos as int,
                        symbol_end(old(lexer).source@, old(lexer).pos + 1),
                    ),
                ),
                old(lexer).source@.subrange(
                    old(lexer).pos as int,
                    symbol_end(old(lexer).source@, old(lexer).pos + 1),
                ),
                count_nl(
                    old(lexer).source@.take(symbol_end(old(lexer).source@, old(lexer).pos + 1)),
                ) as int,
            ),
        ),
{
    let ghost src = old(lexer).source@;
    let ghost p0 = old(lexer).pos as int;
    let n = lexer.source.len();
    let mut value = String::new();
    let mut j = lexer.pos;
    value.push(lexer.source[j]);
    j = j + 1;
    proof {
        assert(value@ =~= src.subrange(p0, j as int));
    }
    loop
        invariant
            *lexer == *old(lexer),
            src == lexer.source@,
            p0 == lexer.pos as int,
            n == src.len(),
            p0 < j <= n,
            value@ == src.subrange(p0, j as int),
            forall|k: int| p0 < k < j ==> is_symbol_char(#[trigger] src[k], false),
            symbol_end(src, p0 + 1) == symbol_end(src, j as int),
        ensures
            *lexer == *old(lexer),
            src == lexer.source@,
            p0 == lexer.pos as int,
            n == src.len(),
            p0 < j <= n,
            value@ == src.subrange(p0, j as int),
            forall|k: int| p0 < k < j ==> is_symbol_char(#[trigger] src[k], false),
            symbol_end(src, p0 + 1) == j as int,
        decreases n - j,
    {
        if j >= n {
            break;
        }
        let c = lexer.source[j];
        if !is_symbol(c, false) {
            break;
        }
        value.push(c);
        proof {
            assert(src.subrange(p0, j + 1) =~= src.subrange(p0, j as int).push(src[j as int]));
        }
        j = j + 1;
    }
    let kind_opt = lookup_reserved(reserved, &value);
    let kind = match kind_opt {
        Some(k) => k,
        None => TokenKind::Identifier,
    };
    proof {
        lemma_lookup_no_eof(reserved_table(), value@);
        assert(value@.len() == j - p0);
        assert(value@[0] == src[p0]);
        assert forall|m: int| 1 <= m < value@.len() implies is_symbol_char(
            #[trigger] value@[m],
            false,
        ) by {
            assert(value@[m] == src[p0 + m]);
        }
        assert(symbol_shaped(value@));
        lemma_word_kind_shape(value@);
        assert(kind == word_kind(value@));
        lemma_count_nl_le(src.take(j as int));
    }
    let ghost all0 = lexer.all@;
    lexer.emit(kind, value);
    proof {
        lemma_model_push(all0, lexer.all@.last());
    }
}

/// Tries each fixed pattern in table order at the cursor; on the first match
/// it emits that pattern's token, otherwise it reports that nothing matched.
fn handle_standard_pattern_tokenization(
    lexer: &mut Lexer,
    patterns: &Vec<Pattern>,
    matched: &mut bool,
)
    requires
        old(lexer).wf(),
        old(lexer).pos < old(lexer).source@.len(),
        forall|i: int| 0 <= i < patterns@.len() ==> pattern_wf(#[trigger] patterns@[i]),
        pattern_views(patterns@) == pattern_table(),
    ensures
        final(lexer).source == old(lexer).source,
        final(lexer).black_list == old(lexer).black_list,
        *final(matched) ==> final(lexer).wf() && final(lexer).pos > old(lexer).pos,
        !*final(matched) ==> *final(lexer) == *old(lexer) && (forall|i: int|
            0 <= i < patterns@.len() ==> !pattern_matches_at(
                old(lexer).source@,
                old(lexer).pos as int,
                (#[trigger] patterns@[i]).value@,
            )),
        *final(matched) ==> (first_pattern_from(old(lexer).source@, old(lexer).pos as int, 0)
            matches Some(p) && final(lexer).pos == p.1 && tokens_model(final(lexer).all@)
            == tokens_model(old(lexer).all@).push(
            (
                p.0,
                old(lexer).source@.subrange(old(lexer).pos as int, p.1),
                count_nl(old(lexer).source@.take(p.1)) as int,
            ),
        )),
        !*final(matched) ==> first_pattern_from(
            old(lexer).source@,
            old(lexer).pos as int,
            0,
        ) is None,
{
    let ghost src = old(lexer).source@;
    let ghost p0 = old(lexer).pos as int;
    *matched = false;
    let np = patterns.len();
    let mut pi: usize = 0;
    while pi < np
        invariant
            *lexer == *old(lexer),
            lexer.wf(),
            *matched == false,
            src == lexer.source@,
            p0 == lexer.pos as int,
            p0 < src.len(),
            np == patterns@.len(),
            pi <= np,
            forall|i: int| 0 <= i < patterns@.len() ==> pattern_wf(#[trigger] patterns@[i]),
            pattern_views(patterns@) == pattern_table(),
            forall|k: int|
                0 <= k < pi ==> !pattern_matches_at(src, p0, (#[trigger] patterns@[k]).value@),
        decreases np - pi,
    {
        let pattern = &patterns[pi];
        let plen = pattern.value.len();
        let n = lexer.source.len();
        let avail = n - lexer.pos;
        if plen <= avail {
            let mut equal = true;
            let mut ci: usize = 0;
            let ghost mut bad: int = 0;
            while ci < plen
                invariant
                    *lexer == *old(lexer),
                    lexer.wf(),
                    src == lexer.source@,
                    p0 == lexer.pos as int,
                    n == src.len(),
                    plen == pattern.value@.len(),
                    p0 + plen <= src.len(),
                    ci <= plen,
                    equal ==> forall|m: int|
                        0 <= m < ci ==> src[p0 + m] == (#[trigger] pattern.value@[m]),
                    !equal ==> 0 <= bad < plen && src[p0 + bad] != pattern.value@[bad],
                ensures
                    *lexer == *old(lexer),
                    lexer.wf(),
                    equal ==> ci == plen && (forall|m: int|
                        0 <= m < plen ==> src[p0 + m] == (#[trigger] pattern.value@[m])),
                    !equal ==> 0 <= bad < plen && src[p0 + bad] != pattern.value@[bad],
                decreases plen - ci,
            {
                if pattern.value[ci] != lexer.source[lexer.pos + ci] {
                    equal = false;
                    proof {
                        bad = ci as int;
                    }
                    break;
                }
                ci = ci + 1;
            }
            if equal {
                proof {
                    assert(src.subrange(p0, p0 + plen) =~= pattern.value@);
                    assert(pattern_views(patterns@)[pi as int] == (pattern.kind, pattern.value@));
                    assert(pattern_table().contains((pattern.kind, pattern.value@)));
                    assert(pattern_table()[pi as int] == (pattern.kind, pattern.value@));
                    assert forall|m: int| 0 <= m < pi implies !pattern_matches_at(
                        src,
                        p0,
                        (#[trigger] pattern_table()[m]).1,
                    ) by {
                        assert(pattern_views(patterns@)[m] == (patterns@[m].kind, patterns@[m].value@));
                        assert(pattern_table()[m].1 == patterns@[m].value@);
                    }
                    lemma_first_pattern_at(src, p0, 0, pi as int);
                    lemma_count_nl_le(src.take(p0 + plen));
                }
                let ghost all0 = lexer.all@;
                pattern.on_match_non_number(lexer);
                proof {
                    lemma_model_push(all0, lexer.all@.last());
                }
                *matched = true;
                return;
            }
            proof {
                assert(!pattern_matches_at(src, p0, patterns@[pi as int].value@)) by {
                    if pattern_matches_at(src, p0, patterns@[pi as int].value@) {
                        assert(src.subrange(p0, p0 + plen)[bad] == src[p0 + bad]);
                    }
                }
            }
        } else {
            proof {
                assert(!pattern_matches_at(src, p0, patterns@[pi as int].value@));
            }
        }
        pi = pi + 1;
    }
    proof {
        assert forall|m: int| 0 <= m < pattern_table().len() implies !pattern_matches_at(
            src,
            p0,
            (#[trigger] pattern_table()[m]).1,
        ) by {
            assert(pattern_views(patterns@)[m] == (patterns@[m].kind, patterns@[m].value@));
            assert(pattern_table()[m].1 == patterns@[m].value@);
        }
        lemma_first_pattern_none(src, p0, 0);
    }
}

/// Where no rule applies and no pattern matches, the position is not lexable.
proof fn lemma_unmatched_not_lexable(src: Seq<char>, pos: int, pats: Seq<Pattern>)
    requires
        0 <= pos < src.len(),
        pattern_views(pats) == pattern_table(),
        forall|i: int|
            0 <= i < pats.len() ==> !pattern_matches_at(src, pos, (#[trigger] pats[i]).value@),
        !is_digit(src[pos]),
        src[pos] != '"',
        !(src[pos] == '$' && pos + 1 < src.len() && src[pos + 1] == '"'),
        !is_symbol_char(src[pos], true),
    ensures
        !lexable_at(src, pos),
{
    let c = src[pos];
    assert(pats.len() == pattern_table().len());
    if is_single_pattern_char(c) {
        let k: int = if c == '\n' {
            0
        } else if c == '\t' {
            1
        } else if c == ' ' {
            2
        } else if c == '[' {
            3
        } else if c == ']' {
            4
        } else if c == '{' {
            5
        } else if c == '}' {
            6
        } else if c == ')' {
            7
        } else if c == '(' {
            8
        } else if c == '=' {
            11
        } else if c == '!' {
            13
        } else if c == '<' {
            15
        } else if c == '>' {
            17
        } else if c == '.' {
            21
        } else if c == ';' {
            22
        } else if c == ':' {
            23
        } else if c == '?' {
            24
        } else if c == ',' {
            25
        } else if c == '+' {
            30
        } else if c == '-' {
            31
        } else if c == '/' {
            32
        } else if c == '*' {
            33
        } else {
            34
        };
        assert(pattern_views(pats)[k] == pattern_table()[k]);
        assert(pats[k].value@ == pattern_table()[k].1);
        assert(src.subrange(pos, pos + 1) =~= seq![c]);
        assert(pattern_matches_at(src, pos, pats[k].value@));
        assert(false);
    }
    if c == '|' && pos + 1 < src.len() && src[pos + 1] == '|' {
        assert(pattern_views(pats)[18] == pattern_table()[18]);
        assert(src.subrange(pos, pos + 2) =~= seq!['|', '|']);
        assert(pattern_matches_at(src, pos, pats[18].value@));
        assert(false);
    }
    if c == '&' && pos + 1 < src.len() && src[pos + 1] == '&' {
        assert(pattern_views(pats)[19] == pattern_table()[19]);
        assert(src.subrange(pos, pos + 2) =~= seq!['&', '&']);
        assert(pattern_matches_at(src, pos, pats[19].value@));
        assert(false);
    }
}

// ---------------------------------------------------------------------------
// The lexer's entry point
// ---------------------------------------------------------------------------

/// Lexing failed: no rule matched; the unconsumed remainder of the source.
#[derive(Debug)]
pub struct LexError {
    pub remainder: String,
}

/// Turns the source text into its complete token sequence in one pass,
/// suppressing the black-listed kinds and ending with the end-of-file
/// sentinel. Carriage returns are dropped before scanning.
///
/// The contract gives the round trip: some full token stream covers the
/// normalized source text exactly, character for character, with correct
/// line numbers, and the returned tokens are its black-list filtering. With
/// an empty black list the returned text itself concatenates back to the
/// source.
/// One scanning step: recognizes the token at the cursor by the priority
/// order of the rules and emits it; reports whether any rule matched. On a
/// match, the scan from the old cursor is the emitted token's model in
/// front of the scan from the new cursor; on no match the scan fails here.
#[verifier::rlimit(100)]
#[verifier::spinoff_prover]
fn scan_step(
    lexer: &mut Lexer,
    patterns: &Vec<Pattern>,
    reserved: &Vec<(String, TokenKind)>,
) -> (r: bool)
    requires
        old(lexer).wf(),
        old(lexer).pos < old(lexer).source@.len(),
        pattern_views(patterns@) == pattern_table(),
        forall|i: int| 0 <= i < patterns@.len() ==> pattern_wf(#[trigger] patterns@[i]),
        reserved_views(reserved@) == reserved_table(),
    ensures
        final(lexer).source == old(lexer).source,
        final(lexer).black_list == old(lexer).black_list,
        final(lexer).wf(),
        r ==> final(lexer).pos > old(lexer).pos,
        r ==> (match scan(old(lexer).source@, old(lexer).pos as int) {
            Ok(rest) => Ok::<Seq<(TokenKind, Seq<char>, int)>, int>(
                tokens_model(old(lexer).all@) + rest,
            ),
            Err(q) => Err(q),
        }) == (match scan(old(lexer).source@, final(lexer).pos as int) {
            Ok(rest) => Ok::<Seq<(TokenKind, Seq<char>, int)>, int>(
                tokens_model(final(lexer).all@) + rest,
            ),
            Err(q) => Err(q),
        }),
        !r ==> *final(lexer) == *old(lexer),
        !r ==> scan(old(lexer).source@, old(lexer).pos as int) == Err::<
            Seq<(TokenKind, Seq<char>, int)>,
            int,
        >(old(lexer).pos as int),
        !r ==> !lexable_at(old(lexer).source@, old(lexer).pos as int),
{
    let ghost stripped = old(lexer).source@;
    let ghost p = old(lexer).pos as int;
    let ghost all0 = old(lexer).all@;
    let n = lexer.source.len();
    let at = lexer.at();
    if is_number(at) {
        handle_number_tokenization(lexer);
        proof {
            let e1 = number_end(stripped, p + 1, false);
            let t = (
                TokenKind::Number,
                stripped.subrange(p, e1),
                count_nl(stripped.take(e1)) as int,
            );
            if scan(stripped, e1) is Ok {
                assert(tokens_model(all0) + (seq![t] + scan(stripped, e1)->Ok_0)
                    =~= tokens_model(lexer.all@) + scan(stripped, e1)->Ok_0);
            }
        }
    } else if at == '/' && lexer.pos + 1 < n && lexer.source[lexer.pos + 1] == '/' {
        handle_comments(lexer);
        proof {
            let ce = comment_end(stripped, p);
            let ct = comment_token_model(stripped, p);
            if ce < stripped.len() {
                let nt = (
                    TokenKind::NextLine,
                    seq!['\n'],
                    count_nl(stripped.take(ce + 1)) as int,
                );
                if scan(stripped, ce + 1) is Ok {
                    assert(tokens_model(all0) + (seq![ct] + (seq![nt] + scan(
                        stripped,
                        ce + 1,
                    )->Ok_0)) =~= tokens_model(lexer.all@) + scan(stripped, ce + 1)->Ok_0);
                }
            } else {
                if scan(stripped, ce) is Ok {
                    assert(tokens_model(all0) + (seq![ct] + scan(stripped, ce)->Ok_0)
                        =~= tokens_model(lexer.all@) + scan(stripped, ce)->Ok_0);
                }
            }
        }
    } else if at == '"' || (at == '$' && lexer.pos + 1 < n && lexer.source[lexer.pos + 1]
        == '"') {
        handle_strings(lexer);
        proof {
            let e1 = string_end(stripped, string_body(stripped, p));
            let t = (
                TokenKind::String,
                stripped.subrange(p, e1),
                count_nl(stripped.take(e1)) as int,
            );
            if scan(stripped, e1) is Ok {
                assert(tokens_model(all0) + (seq![t] + scan(stripped, e1)->Ok_0)
                    =~= tokens_model(lexer.all@) + scan(stripped, e1)->Ok_0);
            }
        }
    } else if is_symbol(at, true) {
        handle_symbols(lexer, reserved);
        proof {
            let e1 = symbol_end(stripped, p + 1);
            let t = (
                word_kind(stripped.subrange(p, e1)),
                stripped.subrange(p, e1),
                count_nl(stripped.take(e1)) as int,
            );
            if scan(stripped, e1) is Ok {
                assert(tokens_model(all0) + (seq![t] + scan(stripped, e1)->Ok_0)
                    =~= tokens_model(lexer.all@) + scan(stripped, e1)->Ok_0);
            }
        }
    } else {
        let mut matched = false;
        handle_standard_pattern_tokenization(lexer, patterns, &mut matched);
        if !matched {
            proof {
                lemma_unmatched_not_lexable(stripped, p, patterns@);
            }
            return false;
        }
        proof {
            if first_pattern_from(stripped, p, 0) is Some {
                let fp = first_pattern_from(stripped, p, 0)->Some_0;
                let t = (fp.0, stripped.subrange(p, fp.1), count_nl(stripped.take(fp.1)) as int);
                if scan(stripped, fp.1) is Ok {
                    assert(tokens_model(all0) + (seq![t] + scan(stripped, fp.1)->Ok_0)
                        =~= tokens_model(lexer.all@) + scan(stripped, fp.1)->Ok_0);
                }
            }
        }
    }
    true
}

/// Turns the source text into its complete token sequence in one pass,
/// suppressing the black-listed kinds and ending with the end-of-file
/// sentinel. Carriage returns are dropped before scanning.
///
/// The contract pins the result: the scan of the normalized source says
/// exactly which tokens come out, in order, with their text and lines, or
/// at which position lexing fails; the returned tokens are the scan's
/// black-list filtering. The covering round trip, the line numbers and the
/// per-kind text shapes come with it.
#[verifier::loop_isolation(false)]
pub fn tokenize(source: String, black_list: Vec<TokenKind>) -> (r: Result<Vec<Token>, LexError>)
    ensures
        (match r {
            Ok(toks) => {
                &&& wf_token_seq(toks@)
                &&& toks@.last().value@ == "Eof"@
                &&& toks@.last().line == count_nl(keep_non_cr(source@))
                &&& forall|i: int|
                    0 <= i < toks@.len() - 1 ==> !black_list@.contains(
                        (#[trigger] toks@[i]).kind,
                    )
                &&& forall|i: int| 0 <= i < toks@.len() - 1 ==> token_shape(#[trigger] toks@[i])
                &&& exists|all: Seq<Token>|
                    lexed_from(all, toks@.drop_last(), keep_non_cr(source@), black_list@)
                &&& black_list@ == Seq::<TokenKind>::empty() ==> concat_values(
                    toks@.drop_last(),
                ) == keep_non_cr(source@)
            },
            Err(e) => exists|p: int|
                0 <= p < keep_non_cr(source@).len() && e.remainder@ == #[trigger] keep_non_cr(
                    source@,
                ).skip(p) && !lexable_at(keep_non_cr(source@), p),
        }),
        (forall|p: int|
            0 <= p < keep_non_cr(source@).len() ==> lexable_at(keep_non_cr(source@), p))
            ==> r is Ok,
        (match scan(keep_non_cr(source@), 0) {
            Ok(ms) => r matches Ok(toks) && tokens_model(toks@.drop_last()) == kept_models(
                ms,
                black_list@,
            ),
            Err(p) => r matches Err(e) && e.remainder@ == keep_non_cr(source@).skip(p),
        }),
{
    let mut lexer = Lexer::new(source, black_list);
    let ghost stripped = lexer.source@;
    let patterns = Lexer::get_patterns();
    let reserved = reserved_symbols();
    proof {
        assert(tokens_model(lexer.all@) =~= Seq::<(TokenKind, Seq<char>, int)>::empty());
        if scan(stripped, 0) is Ok {
            assert(tokens_model(lexer.all@) + scan(stripped, 0)->Ok_0 =~= scan(
                stripped,
                0,
            )->Ok_0);
        }
    }
    while lexer.pos < lexer.source.len()
        invariant
            lexer.wf(),
            lexer.source@ == stripped,
            lexer.black_list@ == black_list@,
            pattern_views(patterns@) == pattern_table(),
            forall|i: int| 0 <= i < patterns@.len() ==> pattern_wf(#[trigger] patterns@[i]),
            reserved_views(reserved@) == reserved_table(),
            scan(stripped, 0) == (match scan(stripped, lexer.pos as int) {
                Ok(rest) => Ok::<Seq<(TokenKind, Seq<char>, int)>, int>(
                    tokens_model(lexer.all@) + rest,
                ),
                Err(q) => Err(q),
            }),
        decreases lexer.source@.len() - lexer.pos,
    {
        let matched = scan_step(&mut lexer, &patterns, &reserved);
        if !matched {
            let ghost perr = lexer.pos as int;
            let rem = lexer.reminder();
            proof {
                assert(0 <= perr < stripped.len());
                assert(rem@ == stripped.skip(perr));
                assert(!lexable_at(stripped, perr));
                assert(scan(stripped, 0) == Err::<Seq<(TokenKind, Seq<char>, int)>, int>(perr));
            }
            return Err(LexError { remainder: rem });
        }
    }
    let line = lexer.current_line;
    let eof_value = String::from_str("Eof");
    let ghost all = lexer.all@;
    let ghost kept = lexer.tokens@;
    proof {
        assert(stripped.take(stripped.len() as int) =~= stripped);
        lemma_kept_members(all, black_list@);
    }
    let eof_tok = Token { kind: TokenKind::EndOfFile, value: eof_value, line };
    let ghost eof_spec = eof_tok;
    lexer.tokens.push(eof_tok);
    let toks = lexer.tokens;
    proof {
        assert(toks@ == kept.push(eof_spec));
        assert(toks@.drop_last() =~= kept);
        assert(toks@.last() == eof_spec);
        assert(lexed_from(all, toks@.drop_last(), stripped, black_list@));
        if black_list@ == Seq::<TokenKind>::empty() {
            lemma_kept_empty(all);
        }
        assert(scan(stripped, stripped.len() as int) == Ok::<
            Seq<(TokenKind, Seq<char>, int)>,
            int,
        >(Seq::empty()));
        if scan(stripped, 0) is Ok {
            assert(tokens_model(all) + Seq::<(TokenKind, Seq<char>, int)>::empty()
                =~= tokens_model(all));
            lemma_kept_models(all, black_list@);
        }
    }
    Ok(toks)
}

} // verus!
