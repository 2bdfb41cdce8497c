use vstd::prelude::*;
use crate::tokenizer::{
    TokenView, LexError, lexed, lex_from, lex_step, opt_seq, after, white_space, is_word_char,
    is_digit, is_delimiter, is_single_operator, is_comparison_start, is_logical_start, is_reserved,
    upper_of, ascii_upper, is_ascii_text, is_numeric_literal, digits_value, word_end, number_end,
    closing_quote, is_quote, lemma_reserved_upper_case,
};
use crate::parser::{QueryView, parsed, statement_at};
use crate::canonical::{query_tokens, lemma_parse_sound, lemma_semicolon_optional};

verus! {

// ---------------------------------------------------------------------------
// Canonical text: each token written out and followed by a space.
// ---------------------------------------------------------------------------

pub open spec fn digit_char(d: int) -> char {
    if d <= 0 {
        '0'
    } else if d == 1 {
        '1'
    } else if d == 2 {
        '2'
    } else if d == 3 {
        '3'
    } else if d == 4 {
        '4'
    } else if d == 5 {
        '5'
    } else if d == 6 {
        '6'
    } else if d == 7 {
        '7'
    } else if d == 8 {
        '8'
    } else {
        '9'
    }
}

/// The decimal digits of a natural number.
pub open spec fn decimal(n: nat) -> Seq<char>
    decreases n,
{
    if n < 10 {
        seq![digit_char(n as int)]
    } else {
        decimal(n / 10).push(digit_char((n % 10) as int))
    }
}

/// A string literal between quotes that it does not hold.
pub open spec fn quoted(s: Seq<char>) -> Seq<char> {
    let q = if s.contains('\'') {
        '"'
    } else {
        '\''
    };
    seq![q] + s + seq![q]
}

pub open spec fn token_text(t: TokenView) -> Seq<char> {
    match t {
        TokenView::Keyword(k) => k,
        TokenView::Identifier(n) => n,
        TokenView::Float(f) => f,
        TokenView::Number(n) => decimal(n as nat),
        TokenView::StringLiteral(s) => quoted(s),
        TokenView::Operator(o) => o,
        TokenView::Delimiter(c) => seq![c],
    }
}

/// Tokens written out, each followed by a space.
pub open spec fn spaced(ts: Seq<TokenView>) -> Seq<char>
    decreases ts.len(),
{
    if ts.len() == 0 {
        Seq::empty()
    } else {
        token_text(ts[0]) + seq![' '] + spaced(ts.drop_first())
    }
}

/// The canonical text of a query.
pub open spec fn query_text(q: QueryView) -> Seq<char> {
    spaced(query_tokens(q))
}

/// The operator spellings that the lexer yields.
pub open spec fn is_lexed_operator(o: Seq<char>) -> bool {
    ||| o.len() == 1 && (is_single_operator(o[0]) || is_comparison_start(o[0]) || is_logical_start(
        o[0],
    ))
    ||| o.len() == 2 && is_comparison_start(o[0]) && o[1] == '='
    ||| o.len() == 2 && is_logical_start(o[0]) && o[1] == o[0]
}

/// A token whose text lexes back to it.
pub open spec fn printable(t: TokenView) -> bool {
    match t {
        TokenView::Keyword(k) => is_reserved(k),
        TokenView::Identifier(n) => {
            &&& n.len() > 0
            &&& !white_space(n[0])
            &&& forall|k: int| 0 <= k < n.len() ==> is_word_char(#[trigger] n[k])
            &&& !is_reserved(upper_of(n))
        },
        TokenView::Float(f) => is_numeric_literal(f) && f.contains('.'),
        TokenView::Number(n) => n >= 0,
        TokenView::StringLiteral(s) => !(s.contains('\'') && s.contains('"')),
        TokenView::Operator(o) => is_lexed_operator(o),
        TokenView::Delimiter(c) => is_delimiter(c),
    }
}

pub open spec fn all_printable(ts: Seq<TokenView>) -> bool {
    forall|k: int| 0 <= k < ts.len() ==> printable(#[trigger] ts[k])
}

proof fn lemma_digit_char(d: int)
    requires
        0 <= d < 10,
    ensures
        digit_char(d) as int - '0' as int == d,
        is_digit(digit_char(d)),
{
}

proof fn lemma_decimal(n: nat)
    ensures
        decimal(n).len() > 0,
        forall|k: int| 0 <= k < decimal(n).len() ==> is_digit(#[trigger] decimal(n)[k]),
        digits_value(decimal(n)) == n,
    decreases n,
{
    if n >= 10 {
        lemma_decimal(n / 10);
        lemma_digit_char((n % 10) as int);
        assert(decimal(n).drop_last() =~= decimal(n / 10));
        assert((n / 10) * 10 + n % 10 == n);
    } else {
        lemma_digit_char(n as int);
        assert(decimal(n).drop_last() =~= Seq::<char>::empty());
        assert(digits_value(Seq::<char>::empty()) == 0);
    }
}

proof fn lemma_word_scan(s: Seq<char>, j: int, e: int)
    requires
        0 <= j <= e < s.len(),
        forall|m: int| j <= m < e ==> is_word_char(#[trigger] s[m]),
        !is_word_char(s[e]),
    ensures
        word_end(s, j) == e,
    decreases e - j,
{
    if j < e {
        assert(is_word_char(s[j]));
        lemma_word_scan(s, j + 1, e);
    }
}

proof fn lemma_number_scan(s: Seq<char>, i: int, j: int, e: int, dot: bool)
    requires
        0 <= i <= j <= e < s.len(),
        forall|m: int| i <= m < e ==> is_digit(#[trigger] s[m]) || s[m] == '.',
        forall|a: int, b: int|
            i <= a < e && i <= b < e && #[trigger] s[a] == '.' && #[trigger] s[b] == '.' ==> a
                == b,
        dot <==> exists|m: int| i <= m < j && s[m] == '.',
        s[e] == ' ',
    ensures
        number_end(s, j, dot) == e,
    decreases e - j,
{
    if j < e {
        let c = s[j];
        assert(is_digit(c) || c == '.');
        if c == '.' && dot {
            let m = choose|m: int| i <= m < j && s[m] == '.';
            assert(m == j);
        }
        let d = dot || c == '.';
        assert(d <==> exists|m: int| i <= m < j + 1 && s[m] == '.') by {
            if c == '.' {
                assert(s[j] == '.');
            }
            if exists|m: int| i <= m < j + 1 && s[m] == '.' {
                let m = choose|m: int| i <= m < j + 1 && s[m] == '.';
                if m < j {
                    assert(dot);
                }
            }
        }
        lemma_number_scan(s, i, j + 1, e, d);
    }
}

proof fn lemma_quote_scan(s: Seq<char>, j: int, e: int, q: char)
    requires
        0 <= j <= e < s.len(),
        forall|m: int| j <= m < e ==> #[trigger] s[m] != q,
        s[e] == q,
    ensures
        closing_quote(s, j, q) == Some(e),
    decreases e - j,
{
    if j < e {
        assert(s[j] != q);
        lemma_quote_scan(s, j + 1, e, q);
    }
}

/// The text of a printable token, followed by a space, lexes to that token.
proof fn lemma_lex_token_text(s: Seq<char>, i: int, t: TokenView)
    requires
        printable(t),
        0 <= i,
        i + token_text(t).len() < s.len(),
        s.subrange(i, i + token_text(t).len()) == token_text(t),
        s[i + token_text(t).len()] == ' ',
    ensures
        token_text(t).len() > 0,
        lex_step(s, i) == Ok::<_, LexError>((Some(t), i + token_text(t).len())),
{
    let x = token_text(t);
    let e = i + x.len();
    assert forall|m: int| i <= m < e implies s[m] == x[m - i] by {
        assert(s[m] == s.subrange(i, e)[m - i]);
    }
    match t {
        TokenView::Keyword(k) => {
            lemma_reserved_upper_case(k);
            reveal_strlit("SELECT");
            reveal_strlit("FROM");
            reveal_strlit("WHERE");
            reveal_strlit("ORDER");
            reveal_strlit("GROUP");
            reveal_strlit("DELETE");
            reveal_strlit("UPDATE");
            reveal_strlit("SET");
            reveal_strlit("INSERT");
            reveal_strlit("INTO");
            reveal_strlit("VALUES");
            assert(k.len() > 0);
            assert(s[i] == k[0]);
            assert forall|m: int| i <= m < e implies is_word_char(#[trigger] s[m]) by {
                assert(s[m] == k[m - i]);
            }
            lemma_word_scan(s, i, e);
            assert(s.subrange(i, e) == k);
            assert(is_ascii_text(k));
            assert(k.map_values(|c: char| ascii_upper(c)) =~= k);
            assert(upper_of(k) == k);
        },
        TokenView::Identifier(n) => {
            assert(s[i] == n[0]);
            assert(is_word_char(n[0]));
            assert forall|m: int| i <= m < e implies is_word_char(#[trigger] s[m]) by {
                assert(s[m] == n[m - i]);
            }
            lemma_word_scan(s, i, e);
        },
        TokenView::Float(f) => {
            assert(s[i] == f[0]);
            assert forall|m: int| i <= m < e implies is_digit(#[trigger] s[m]) || s[m] == '.' by {
                assert(s[m] == f[m - i]);
            }
            assert forall|a: int, b: int|
                i <= a < e && i <= b < e && #[trigger] s[a] == '.' && #[trigger] s[b] == '.'
                    implies a == b by {
                assert(f[a - i] == '.' && f[b - i] == '.');
            }
            lemma_number_scan(s, i, i, e, false);
        },
        TokenView::Number(n) => {
            lemma_decimal(n as nat);
            let d = decimal(n as nat);
            assert(s[i] == d[0]);
            assert forall|m: int| i <= m < e implies is_digit(#[trigger] s[m]) by {
                assert(s[m] == d[m - i]);
            }
            lemma_number_scan(s, i, i, e, false);
            assert(!d.contains('.'));
        },
        TokenView::StringLiteral(body) => {
            let q = if body.contains('\'') {
                '"'
            } else {
                '\''
            };
            assert(s[i] == q);
            assert(s[e - 1] == q);
            assert forall|m: int| i + 1 <= m < e - 1 implies #[trigger] s[m] != q by {
                assert(s[m] == body[m - i - 1]);
                assert(x[m - i] == body[m - i - 1]);
            }
            lemma_quote_scan(s, i + 1, e - 1, q);
            assert(s.subrange(i + 1, e - 1) =~= body);
        },
        TokenView::Operator(o) => {
            assert(s[i] == o[0]);
            if o.len() == 2 {
                assert(s[i + 1] == o[1]);
            }
            assert(seq![s[i]] =~= o || seq![s[i], s[i + 1]] =~= o);
        },
        TokenView::Delimiter(c) => {
            assert(s[i] == c);
        },
    }
}

/// Canonical text lexes back to the printable tokens it was written from.
proof fn lemma_lex_spaced(s: Seq<char>, i: int, ts: Seq<TokenView>)
    requires
        0 <= i <= s.len(),
        s.subrange(i, s.len() as int) == spaced(ts),
        all_printable(ts),
    ensures
        lex_from(s, i) == Ok::<_, LexError>(ts),
    decreases ts.len(),
{
    if ts.len() == 0 {
        assert(s.subrange(i, s.len() as int).len() == 0);
        assert(ts =~= Seq::<TokenView>::empty());
    } else {
        let t = ts[0];
        let x = token_text(t);
        let e = i + x.len();
        let rest = ts.drop_first();
        assert(printable(t));
        let u = s.subrange(i, s.len() as int);
        assert(u == x + seq![' '] + spaced(rest));
        assert(u.len() == x.len() + 1 + spaced(rest).len());
        assert(e < s.len());
        assert(u.subrange(0, x.len() as int) =~= x);
        assert(s.subrange(i, e) =~= u.subrange(0, x.len() as int));
        assert(u[x.len() as int] == ' ');
        assert(s[e] == u[x.len() as int]);
        lemma_lex_token_text(s, i, t);
        assert(white_space(s[e]));
        assert(lex_step(s, e) == Ok::<_, LexError>((None::<TokenView>, e + 1)));
        assert(u.subrange(x.len() as int + 1, u.len() as int) =~= spaced(rest));
        assert(s.subrange(e + 1, s.len() as int) =~= u.subrange(x.len() as int + 1, u.len() as int));
        assert forall|k: int| 0 <= k < rest.len() implies printable(#[trigger] rest[k]) by {
            assert(rest[k] == ts[k + 1]);
        }
        lemma_lex_spaced(s, e + 1, rest);
        assert(Seq::<TokenView>::empty() + rest =~= rest);
        assert(lex_from(s, e) == Ok::<_, LexError>(rest));
        assert(seq![t] + rest =~= ts);
        assert(opt_seq(Some(t)) == seq![t]);
        assert(lex_from(s, i) == after(opt_seq(Some(t)), lex_from(s, e)));
    }
}

/// Canonical text of printable tokens lexes back to those tokens.
pub proof fn lemma_lex_canonical_text(ts: Seq<TokenView>)
    requires
        all_printable(ts),
    ensures
        lexed(spaced(ts)) == Ok::<_, LexError>(ts),
{
    let s = spaced(ts);
    assert(s.subrange(0, s.len() as int) =~= s);
    lemma_lex_spaced(s, 0, ts);
}

proof fn lemma_quote_found(s: Seq<char>, j: int, q: char)
    requires
        0 <= j,
        closing_quote(s, j, q) is Some,
    ensures
        ({
            let k = closing_quote(s, j, q)->Some_0;
            &&& j <= k < s.len()
            &&& s[k] == q
            &&& forall|m: int| j <= m < k ==> #[trigger] s[m] != q
        }),
    decreases s.len() - j,
{
    if s[j] != q {
        lemma_quote_found(s, j + 1, q);
    }
}

proof fn lemma_word_end_props(s: Seq<char>, j: int)
    requires
        0 <= j <= s.len(),
    ensures
        j <= word_end(s, j) <= s.len(),
        forall|m: int| j <= m < word_end(s, j) ==> is_word_char(#[trigger] s[m]),
    decreases s.len() - j,
{
    if j < s.len() && is_word_char(s[j]) {
        lemma_word_end_props(s, j + 1);
    }
}

proof fn lemma_number_end_props(s: Seq<char>, j: int, dot: bool)
    requires
        0 <= j <= s.len(),
    ensures
        ({
            let e = number_end(s, j, dot);
            &&& j <= e <= s.len()
            &&& forall|m: int| j <= m < e ==> is_digit(#[trigger] s[m]) || s[m] == '.'
            &&& dot ==> forall|m: int| j <= m < e ==> #[trigger] s[m] != '.'
            &&& forall|a: int, b: int|
                j <= a < e && j <= b < e && #[trigger] s[a] == '.' && #[trigger] s[b] == '.'
                    ==> a == b
        }),
    decreases s.len() - j,
{
    if 0 <= j < s.len() && (is_digit(s[j]) || (s[j] == '.' && !dot)) {
        lemma_number_end_props(s, j + 1, dot || s[j] == '.');
    }
}

/// Every token that one step of the lexer yields is printable.
proof fn lemma_step_printable(s: Seq<char>, i: int)
    requires
        0 <= i < s.len(),
        lex_step(s, i) is Ok,
    ensures
        lex_step(s, i)->Ok_0.0 matches Some(t) ==> printable(t),
{
    let c = s[i];
    if is_quote(c) {
        lemma_quote_found(s, i + 1, c);
        let k = closing_quote(s, i + 1, c)->Some_0;
        let body = s.subrange(i + 1, k);
        assert(!body.contains(c)) by {
            if body.contains(c) {
                let m = choose|m: int| 0 <= m < body.len() && body[m] == c;
                assert(s[i + 1 + m] == c);
            }
        }
    } else if is_delimiter(c) || is_single_operator(c) || is_comparison_start(c)
        || is_logical_start(c) {
    } else if is_digit(c) {
        lemma_number_end_props(s, i, false);
        lemma_number_end_props(s, i + 1, false);
        let e = number_end(s, i, false);
        let t = s.subrange(i, e);
        assert(e > i);
        assert forall|m: int| 0 <= m < t.len() implies is_digit(#[trigger] t[m]) || t[m] == '.' by {
            assert(t[m] == s[i + m]);
        }
        assert forall|a: int, b: int|
            0 <= a < t.len() && 0 <= b < t.len() && #[trigger] t[a] == '.' && #[trigger] t[b]
                == '.' implies a == b by {
            assert(s[i + a] == '.' && s[i + b] == '.');
        }
        if !t.contains('.') {
            assert forall|m: int| 0 <= m < t.len() implies is_digit(#[trigger] t[m]) by {
                if t[m] == '.' {
                    assert(t.contains('.'));
                }
            }
            crate::tokenizer::lemma_digits_prefix(t, 0);
        }
    } else if white_space(c) {
    } else if is_word_char(c) {
        lemma_word_end_props(s, i);
        lemma_word_end_props(s, i + 1);
        let e = word_end(s, i);
        let w = s.subrange(i, e);
        assert(e > i);
        assert(w[0] == c);
        assert forall|m: int| 0 <= m < w.len() implies is_word_char(#[trigger] w[m]) by {
            assert(w[m] == s[i + m]);
        }
    }
}

/// Every token the lexer yields is printable.
pub proof fn lemma_lexed_printable(s: Seq<char>, i: int)
    requires
        lex_from(s, i) is Ok,
    ensures
        all_printable(lex_from(s, i)->Ok_0),
    decreases s.len() - i,
{
    if 0 <= i < s.len() {
        let (t, j) = lex_step(s, i)->Ok_0;
        if i < j <= s.len() {
            lemma_step_printable(s, i);
            lemma_lexed_printable(s, j);
            let rest = lex_from(s, j)->Ok_0;
            let all = opt_seq(t) + rest;
            assert forall|k: int| 0 <= k < all.len() implies printable(#[trigger] all[k]) by {
                if k < opt_seq(t).len() {
                    assert(all[k] == t->Some_0);
                } else {
                    assert(all[k] == rest[k - opt_seq(t).len()]);
                }
            }
        }
    }
}

/// Round trip through text: for every statement that lexes and parses to a
/// query, the query's canonical text lexes to the query's canonical tokens,
/// which parse to the same query.
pub proof fn lemma_text_round_trip(source: Seq<char>)
    requires
        lexed(source) is Ok,
        parsed(lexed(source)->Ok_0) is Ok,
    ensures
        ({
            let q = parsed(lexed(source)->Ok_0)->Ok_0;
            &&& lexed(query_text(q)) == Ok::<_, LexError>(query_tokens(q))
            &&& parsed(query_tokens(q)) == parsed(lexed(source)->Ok_0)
        }),
{
    let ts = lexed(source)->Ok_0;
    lemma_lexed_printable(source, 0);
    lemma_parse_sound(ts);
    let (q, j) = statement_at(ts, 0)->Ok_0;
    assert forall|k: int| 0 <= k < query_tokens(q).len() implies printable(
        #[trigger] query_tokens(q)[k],
    ) by {
        assert(query_tokens(q)[k] == ts.subrange(0, j)[k]);
        assert(ts[k] == ts.subrange(0, j)[k]);
    }
    lemma_lex_canonical_text(query_tokens(q));
    lemma_semicolon_optional(q);
}

} // verus!
