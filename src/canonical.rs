use vstd::prelude::*;
use crate::tokenizer::TokenView;
use crate::parser::{
    Operator, ValueView, OperandView, ConditionView, QueryView, ParseErrorView, token_at, keyword,
    name_at, value_at, operator_of, condition_at, comma_at, columns_at, values_at, set_at, sets_at,
    where_at, select_at, insert_at, update_at, delete_at, statement_at, parsed,
};

verus! {

broadcast use vstd::string::group_string_axioms;

// ---------------------------------------------------------------------------
// Canonical token form of a query, and laws of the parser
// ---------------------------------------------------------------------------

pub open spec fn value_token(v: ValueView) -> TokenView {
    match v {
        ValueView::Integer(n) => TokenView::Number(n),
        ValueView::Float(f) => TokenView::Float(f),
        ValueView::Text(t) => TokenView::StringLiteral(t),
    }
}

pub open spec fn operand_token(o: OperandView) -> TokenView {
    match o {
        OperandView::Field(n) => TokenView::Identifier(n),
        OperandView::Value(v) => value_token(v),
    }
}

pub open spec fn operator_spelling(o: Operator) -> Seq<char> {
    match o {
        Operator::Equal => "="@,
        Operator::NotEqual => "!="@,
        Operator::LessThan => "<"@,
        Operator::LessOrEqual => "<="@,
        Operator::GreaterThan => ">"@,
        Operator::GreaterOrEqual => ">="@,
    }
}

pub open spec fn condition_tokens(c: ConditionView) -> Seq<TokenView> {
    seq![
        operand_token(c.left),
        TokenView::Operator(operator_spelling(c.operator)),
        operand_token(c.right),
    ]
}

pub open spec fn where_tokens(c: Option<ConditionView>) -> Seq<TokenView> {
    match c {
        Some(c) => seq![keyword("WHERE"@)] + condition_tokens(c),
        None => Seq::empty(),
    }
}

/// Items separated by commas, each item given as its tokens.
pub open spec fn comma_separated(items: Seq<Seq<TokenView>>) -> Seq<TokenView>
    decreases items.len(),
{
    if items.len() <= 1 {
        if items.len() == 1 {
            items[0]
        } else {
            Seq::empty()
        }
    } else {
        items[0] + seq![TokenView::Delimiter(',')] + comma_separated(items.drop_first())
    }
}

pub open spec fn column_list_tokens(cs: Seq<Seq<char>>) -> Seq<TokenView> {
    comma_separated(cs.map_values(|c: Seq<char>| seq![TokenView::Identifier(c)]))
}

pub open spec fn value_list_tokens(vs: Seq<ValueView>) -> Seq<TokenView> {
    comma_separated(vs.map_values(|v: ValueView| seq![value_token(v)]))
}

pub open spec fn set_tokens(s: (Seq<char>, ValueView)) -> Seq<TokenView> {
    seq![TokenView::Identifier(s.0), TokenView::Operator("="@), value_token(s.1)]
}

pub open spec fn set_list_tokens(ss: Seq<(Seq<char>, ValueView)>) -> Seq<TokenView> {
    comma_separated(ss.map_values(|s: (Seq<char>, ValueView)| set_tokens(s)))
}

/// The canonical token form of a query.
pub open spec fn query_tokens(q: QueryView) -> Seq<TokenView> {
    match q {
        QueryView::Select { columns, table, condition } => seq![keyword("SELECT"@)]
            + column_list_tokens(columns) + seq![keyword("FROM"@), TokenView::Identifier(table)]
            + where_tokens(condition),
        QueryView::Insert { table, columns, values } => seq![
            keyword("INSERT"@),
            keyword("INTO"@),
            TokenView::Identifier(table),
            TokenView::Delimiter('('),
        ] + column_list_tokens(columns) + seq![
            TokenView::Delimiter(')'),
            keyword("VALUES"@),
            TokenView::Delimiter('('),
        ] + value_list_tokens(values) + seq![TokenView::Delimiter(')')],
        QueryView::Update { table, changes, condition } => seq![
            keyword("UPDATE"@),
            TokenView::Identifier(table),
            keyword("SET"@),
        ] + set_list_tokens(changes) + where_tokens(condition),
        QueryView::Delete { table, condition } => seq![
            keyword("DELETE"@),
            keyword("FROM"@),
            TokenView::Identifier(table),
        ] + where_tokens(condition),
    }
}

/// A query whose lists are not empty.
pub open spec fn well_formed(q: QueryView) -> bool {
    match q {
        QueryView::Select { columns, .. } => columns.len() > 0,
        QueryView::Insert { columns, values, .. } => columns.len() > 0 && values.len() > 0,
        QueryView::Update { changes, .. } => changes.len() > 0,
        QueryView::Delete { .. } => true,
    }
}

/// Tokens that may follow the canonical form of `q` without extending it: no
/// `WHERE` after a query without a condition, and no `,` after a set list.
pub open spec fn ends_cleanly(q: QueryView, rest: Seq<TokenView>) -> bool {
    let no_where = token_at(rest, 0) != Some(keyword("WHERE"@));
    match q {
        QueryView::Select { condition: None, .. } => no_where,
        QueryView::Delete { condition: None, .. } => no_where,
        QueryView::Update { condition: None, .. } => no_where && !comma_at(rest, 0),
        _ => true,
    }
}

proof fn lemma_reveal_spellings()
    ensures
        "="@ =~= seq!['='],
        "!="@ =~= seq!['!', '='],
        "<"@ =~= seq!['<'],
        "<="@ =~= seq!['<', '='],
        ">"@ =~= seq!['>'],
        ">="@ =~= seq!['>', '='],
        "SELECT"@ =~= seq!['S', 'E', 'L', 'E', 'C', 'T'],
        "INSERT"@ =~= seq!['I', 'N', 'S', 'E', 'R', 'T'],
        "UPDATE"@ =~= seq!['U', 'P', 'D', 'A', 'T', 'E'],
        "DELETE"@ =~= seq!['D', 'E', 'L', 'E', 'T', 'E'],
{
    reveal_strlit("=");
    reveal_strlit("!=");
    reveal_strlit("<");
    reveal_strlit("<=");
    reveal_strlit(">");
    reveal_strlit(">=");
    reveal_strlit("SELECT");
    reveal_strlit("INSERT");
    reveal_strlit("UPDATE");
    reveal_strlit("DELETE");
}

proof fn lemma_operator_round_trip(o: Operator)
    ensures
        operator_of(operator_spelling(o)) == Some(o),
{
    lemma_reveal_spellings();
    let s = operator_spelling(o);
    if o != Operator::Equal {
        assert(s != "="@) by {
            if s.len() == 1 {
                assert(s[0] != '=');
            }
        }
    }
    if o != Operator::NotEqual {
        assert(s != "!="@) by {
            if s.len() == 2 {
                assert(s[0] != '!');
            }
        }
    }
    if o != Operator::GreaterThan {
        assert(s != ">"@) by {
            if s.len() == 1 {
                assert(s[0] != '>');
            }
        }
    }
    if o != Operator::LessThan {
        assert(s != "<"@) by {
            if s.len() == 1 {
                assert(s[0] != '<');
            }
        }
    }
    if o != Operator::GreaterOrEqual {
        assert(s != ">="@) by {
            if s.len() == 2 {
                assert(s[0] != '>');
            }
        }
    }
}

proof fn lemma_condition_rendered(c: ConditionView, ts: Seq<TokenView>, i: int)
    requires
        0 <= i,
        i + 3 <= ts.len(),
        ts.subrange(i, i + 3) == condition_tokens(c),
    ensures
        condition_at(ts, i) == Ok::<_, ParseErrorView>((c, i + 3)),
{
    assert(ts[i] == ts.subrange(i, i + 3)[0]);
    assert(ts[i + 1] == ts.subrange(i, i + 3)[1]);
    assert(ts[i + 2] == ts.subrange(i, i + 3)[2]);
    lemma_operator_round_trip(c.operator);
}

proof fn lemma_where_rendered(c: Option<ConditionView>, ts: Seq<TokenView>, i: int)
    requires
        0 <= i,
        i + where_tokens(c).len() <= ts.len(),
        ts.subrange(i, i + where_tokens(c).len()) == where_tokens(c),
        c is None ==> token_at(ts, i) != Some(keyword("WHERE"@)),
    ensures
        where_at(ts, i) == Ok::<_, ParseErrorView>((c, i + where_tokens(c).len())),
{
    if let Some(cv) = c {
        assert(ts[i] == ts.subrange(i, i + 4)[0]);
        assert(ts.subrange(i + 1, i + 4) =~= ts.subrange(i, i + 4).subrange(1, 4));
        assert(ts.subrange(i, i + 4).subrange(1, 4) =~= condition_tokens(cv));
        lemma_condition_rendered(cv, ts, i + 1);
    }
}

proof fn lemma_columns_rendered(cs: Seq<Seq<char>>, ts: Seq<TokenView>, i: int)
    requires
        cs.len() > 0,
        0 <= i,
        i + column_list_tokens(cs).len() <= ts.len(),
        ts.subrange(i, i + column_list_tokens(cs).len()) == column_list_tokens(cs),
        !comma_at(ts, i + column_list_tokens(cs).len()),
    ensures
        columns_at(ts, i) == Ok::<_, ParseErrorView>((cs, i + column_list_tokens(cs).len())),
    decreases cs.len(),
{
    let f = |c: Seq<char>| seq![TokenView::Identifier(c)];
    let items = cs.map_values(f);
    let l = column_list_tokens(cs).len() as int;
    assert(ts[i] == ts.subrange(i, i + l)[0]);
    if cs.len() == 1 {
        assert(seq![cs[0]] =~= cs);
    } else {
        let tail = cs.drop_first();
        assert(items.drop_first() =~= tail.map_values(f));
        let lt = column_list_tokens(tail).len();
        assert(l == lt + 2);
        assert(ts[i + 1] == ts.subrange(i, i + l)[1]);
        assert(ts.subrange(i + 2, i + l) =~= ts.subrange(i, i + l).subrange(2, l));
        assert(ts.subrange(i, i + l).subrange(2, l) =~= column_list_tokens(tail));
        lemma_columns_rendered(tail, ts, i + 2);
        assert(seq![cs[0]] + tail =~= cs);
    }
}

proof fn lemma_values_rendered(vs: Seq<ValueView>, ts: Seq<TokenView>, i: int)
    requires
        vs.len() > 0,
        0 <= i,
        i + value_list_tokens(vs).len() <= ts.len(),
        ts.subrange(i, i + value_list_tokens(vs).len()) == value_list_tokens(vs),
        !comma_at(ts, i + value_list_tokens(vs).len()),
    ensures
        values_at(ts, i) == Ok::<_, ParseErrorView>((vs, i + value_list_tokens(vs).len())),
    decreases vs.len(),
{
    let f = |v: ValueView| seq![value_token(v)];
    let items = vs.map_values(f);
    let l = value_list_tokens(vs).len() as int;
    assert(ts[i] == ts.subrange(i, i + l)[0]);
    if vs.len() == 1 {
        assert(seq![vs[0]] =~= vs);
    } else {
        let tail = vs.drop_first();
        assert(items.drop_first() =~= tail.map_values(f));
        let lt = value_list_tokens(tail).len();
        assert(l == lt + 2);
        assert(ts[i + 1] == ts.subrange(i, i + l)[1]);
        assert(ts.subrange(i + 2, i + l) =~= ts.subrange(i, i + l).subrange(2, l));
        assert(ts.subrange(i, i + l).subrange(2, l) =~= value_list_tokens(tail));
        lemma_values_rendered(tail, ts, i + 2);
        assert(seq![vs[0]] + tail =~= vs);
    }
}

proof fn lemma_sets_rendered(ss: Seq<(Seq<char>, ValueView)>, ts: Seq<TokenView>, i: int)
    requires
        ss.len() > 0,
        0 <= i,
        i + set_list_tokens(ss).len() <= ts.len(),
        ts.subrange(i, i + set_list_tokens(ss).len()) == set_list_tokens(ss),
        !comma_at(ts, i + set_list_tokens(ss).len()),
    ensures
        sets_at(ts, i) == Ok::<_, ParseErrorView>((ss, i + set_list_tokens(ss).len())),
    decreases ss.len(),
{
    let f = |s: (Seq<char>, ValueView)| set_tokens(s);
    let items = ss.map_values(f);
    let l = set_list_tokens(ss).len() as int;
    assert(ts[i] == ts.subrange(i, i + l)[0]);
    assert(ts[i + 1] == ts.subrange(i, i + l)[1]);
    assert(ts[i + 2] == ts.subrange(i, i + l)[2]);
    assert(set_at(ts, i) == Ok::<_, ParseErrorView>((ss[0], i + 3)));
    if ss.len() == 1 {
        assert(seq![ss[0]] =~= ss);
    } else {
        let tail = ss.drop_first();
        assert(items.drop_first() =~= tail.map_values(f));
        let lt = set_list_tokens(tail).len();
        assert(l == lt + 4);
        assert(ts[i + 3] == ts.subrange(i, i + l)[3]);
        assert(ts.subrange(i + 4, i + l) =~= ts.subrange(i, i + l).subrange(4, l));
        assert(ts.subrange(i, i + l).subrange(4, l) =~= set_list_tokens(tail));
        lemma_sets_rendered(tail, ts, i + 4);
        assert(seq![ss[0]] + tail =~= ss);
    }
}

proof fn lemma_select_canonical(q: QueryView, rest: Seq<TokenView>)
    requires
        q is Select,
        well_formed(q),
        ends_cleanly(q, rest),
    ensures
        select_at(query_tokens(q) + rest, 1) == Ok::<_, ParseErrorView>(
            (q, query_tokens(q).len() as int),
        ),
{
    let ts = query_tokens(q) + rest;
    if let QueryView::Select { columns, table, condition } = q {
        let c = column_list_tokens(columns);
        let l = c.len() as int;
        let w = where_tokens(condition);
        assert(ts.subrange(1, 1 + l) =~= c);
        assert(ts[1 + l] == keyword("FROM"@));
        assert(ts[2 + l] == TokenView::Identifier(table));
        lemma_columns_rendered(columns, ts, 1);
        assert(ts.subrange(3 + l, 3 + l + w.len()) =~= w);
        lemma_where_rendered(condition, ts, 3 + l);
    }
}

proof fn lemma_insert_canonical(q: QueryView, rest: Seq<TokenView>)
    requires
        q is Insert,
        well_formed(q),
    ensures
        insert_at(query_tokens(q) + rest, 1) == Ok::<_, ParseErrorView>(
            (q, query_tokens(q).len() as int),
        ),
{
    let ts = query_tokens(q) + rest;
    if let QueryView::Insert { table, columns, values } = q {
        let c = column_list_tokens(columns);
        let l = c.len() as int;
        let v = value_list_tokens(values);
        let m = v.len() as int;
        assert(ts[1] == keyword("INTO"@));
        assert(ts[2] == TokenView::Identifier(table));
        assert(ts[3] == TokenView::Delimiter('('));
        assert(ts.subrange(4, 4 + l) =~= c);
        assert(ts[4 + l] == TokenView::Delimiter(')'));
        assert(ts[5 + l] == keyword("VALUES"@));
        assert(ts[6 + l] == TokenView::Delimiter('('));
        assert(ts.subrange(7 + l, 7 + l + m) =~= v);
        assert(ts[7 + l + m] == TokenView::Delimiter(')'));
        lemma_columns_rendered(columns, ts, 4);
        lemma_values_rendered(values, ts, 7 + l);
    }
}

proof fn lemma_update_canonical(q: QueryView, rest: Seq<TokenView>)
    requires
        q is Update,
        well_formed(q),
        ends_cleanly(q, rest),
    ensures
        update_at(query_tokens(q) + rest, 1) == Ok::<_, ParseErrorView>(
            (q, query_tokens(q).len() as int),
        ),
{
    let ts = query_tokens(q) + rest;
    if let QueryView::Update { table, changes, condition } = q {
        let c = set_list_tokens(changes);
        let l = c.len() as int;
        let w = where_tokens(condition);
        assert(ts[1] == TokenView::Identifier(table));
        assert(ts[2] == keyword("SET"@));
        assert(ts.subrange(3, 3 + l) =~= c);
        assert(ts.subrange(3 + l, 3 + l + w.len()) =~= w);
        if condition is Some {
            assert(ts[3 + l] == keyword("WHERE"@));
        } else {
            assert(token_at(ts, 3 + l) == token_at(rest, 0));
        }
        lemma_sets_rendered(changes, ts, 3);
        lemma_where_rendered(condition, ts, 3 + l);
    }
}

proof fn lemma_delete_canonical(q: QueryView, rest: Seq<TokenView>)
    requires
        q is Delete,
        ends_cleanly(q, rest),
    ensures
        delete_at(query_tokens(q) + rest, 1) == Ok::<_, ParseErrorView>(
            (q, query_tokens(q).len() as int),
        ),
{
    let ts = query_tokens(q) + rest;
    if let QueryView::Delete { table, condition } = q {
        let w = where_tokens(condition);
        assert(ts[1] == keyword("FROM"@));
        assert(ts[2] == TokenView::Identifier(table));
        assert(ts.subrange(3, 3 + w.len() as int) =~= w);
        lemma_where_rendered(condition, ts, 3);
    }
}

/// The canonical token form of a query, followed by tokens that do not extend
/// it, parses back to that query and ends where the form ends.
pub proof fn lemma_parse_canonical(q: QueryView, rest: Seq<TokenView>)
    requires
        well_formed(q),
        ends_cleanly(q, rest),
    ensures
        statement_at(query_tokens(q) + rest, 0) == Ok::<_, ParseErrorView>(
            (q, query_tokens(q).len() as int),
        ),
{
    lemma_reveal_spellings();
    let ts = query_tokens(q) + rest;
    match q {
        QueryView::Select { .. } => {
            assert(ts[0] == keyword("SELECT"@));
            lemma_select_canonical(q, rest);
        },
        QueryView::Insert { .. } => {
            assert(ts[0] == keyword("INSERT"@));
            lemma_insert_canonical(q, rest);
        },
        QueryView::Update { .. } => {
            assert(ts[0] == keyword("UPDATE"@));
            lemma_update_canonical(q, rest);
        },
        QueryView::Delete { .. } => {
            assert(ts[0] == keyword("DELETE"@));
            lemma_delete_canonical(q, rest);
        },
    }
}

/// Every query that parsing yields has non-empty lists.
pub proof fn lemma_parsed_well_formed(ts: Seq<TokenView>)
    requires
        parsed(ts) is Ok,
    ensures
        well_formed(parsed(ts)->Ok_0),
{
}

/// Round trip: the query parsed from any token sequence, written back in its
/// canonical token form, parses to the same query.
pub proof fn lemma_round_trip(ts: Seq<TokenView>)
    requires
        parsed(ts) is Ok,
    ensures
        parsed(query_tokens(parsed(ts)->Ok_0)) == parsed(ts),
{
    let q = parsed(ts)->Ok_0;
    lemma_parsed_well_formed(ts);
    lemma_parse_canonical(q, Seq::empty());
    assert(query_tokens(q) + Seq::<TokenView>::empty() =~= query_tokens(q));
}

/// The closing `;` is optional: a query in canonical form parses the same
/// with and without it.
pub proof fn lemma_semicolon_optional(q: QueryView)
    requires
        well_formed(q),
    ensures
        parsed(query_tokens(q).push(TokenView::Delimiter(';'))) == parsed(query_tokens(q)),
        parsed(query_tokens(q)) == Ok::<_, ParseErrorView>(q),
{
    lemma_parse_canonical(q, Seq::empty());
    assert(query_tokens(q) + Seq::<TokenView>::empty() =~= query_tokens(q));
    lemma_parse_canonical(q, seq![TokenView::Delimiter(';')]);
    assert(query_tokens(q) + seq![TokenView::Delimiter(';')] =~= query_tokens(q).push(
        TokenView::Delimiter(';'),
    ));
}

/// `SELECT` followed by anything but a column name is a missing identifier.
pub proof fn lemma_select_without_columns(ts: Seq<TokenView>)
    requires
        ts.len() >= 2,
        ts[0] == keyword("SELECT"@),
        !(ts[1] is Identifier),
    ensures
        parsed(ts) == Err::<QueryView, _>(ParseErrorView::ExpectedIdentifier),
{
}

/// An `INSERT` whose column list is followed by a token other than `,` or
/// `)` reports the missing `)` and the token found in its place.
pub proof fn lemma_insert_unclosed_columns(
    table: Seq<char>,
    columns: Seq<Seq<char>>,
    found: TokenView,
    rest: Seq<TokenView>,
)
    requires
        columns.len() > 0,
        found != TokenView::Delimiter(','),
        found != TokenView::Delimiter(')'),
    ensures
        parsed(
            seq![
                keyword("INSERT"@),
                keyword("INTO"@),
                TokenView::Identifier(table),
                TokenView::Delimiter('('),
            ] + column_list_tokens(columns) + seq![found] + rest,
        ) == Err::<QueryView, _>(ParseErrorView::ExpectedToken(TokenView::Delimiter(')'), found)),
{
    lemma_reveal_spellings();
    let c = column_list_tokens(columns);
    let l = c.len() as int;
    let ts = seq![
        keyword("INSERT"@),
        keyword("INTO"@),
        TokenView::Identifier(table),
        TokenView::Delimiter('('),
    ] + c + seq![found] + rest;
    assert(ts[0] == keyword("INSERT"@));
    assert(ts[1] == keyword("INTO"@));
    assert(ts[2] == TokenView::Identifier(table));
    assert(ts[3] == TokenView::Delimiter('('));
    assert(ts.subrange(4, 4 + l) =~= c);
    assert(ts[4 + l] == found);
    lemma_columns_rendered(columns, ts, 4);
}

proof fn lemma_comma_separated_cons(items: Seq<Seq<TokenView>>)
    requires
        items.len() >= 2,
    ensures
        comma_separated(items) == items[0] + seq![TokenView::Delimiter(',')] + comma_separated(
            items.drop_first(),
        ),
{
}

proof fn lemma_columns_sound(ts: Seq<TokenView>, i: int)
    requires
        columns_at(ts, i) is Ok,
    ensures
        ({
            let (cs, j) = columns_at(ts, i)->Ok_0;
            &&& cs.len() > 0
            &&& 0 <= i < j <= ts.len()
            &&& ts.subrange(i, j) == column_list_tokens(cs)
            &&& !comma_at(ts, j)
        }),
    decreases ts.len() - i,
{
    let f = |c: Seq<char>| seq![TokenView::Identifier(c)];
    let (c, i1) = name_at(ts, i)->Ok_0;
    let (cs, j) = columns_at(ts, i)->Ok_0;
    if comma_at(ts, i1) {
        lemma_columns_sound(ts, i1 + 1);
        let (tail, j2) = columns_at(ts, i1 + 1)->Ok_0;
        assert(cs == seq![c] + tail);
        assert(cs.map_values(f).drop_first() =~= tail.map_values(f));
        assert(cs.drop_first() =~= tail);
        if tail.len() >= 1 {
            lemma_comma_separated_cons(cs.map_values(f));
        }
        assert(ts.subrange(i, j) =~= seq![TokenView::Identifier(c), TokenView::Delimiter(',')]
            + ts.subrange(i + 2, j));
    } else {
        assert(ts.subrange(i, j) =~= seq![TokenView::Identifier(c)]);
    }
}

proof fn lemma_values_sound(ts: Seq<TokenView>, i: int)
    requires
        values_at(ts, i) is Ok,
    ensures
        ({
            let (vs, j) = values_at(ts, i)->Ok_0;
            &&& vs.len() > 0
            &&& 0 <= i < j <= ts.len()
            &&& ts.subrange(i, j) == value_list_tokens(vs)
            &&& !comma_at(ts, j)
        }),
    decreases ts.len() - i,
{
    let f = |v: ValueView| seq![value_token(v)];
    let (v, i1) = value_at(ts, i)->Ok_0;
    let (vs, j) = values_at(ts, i)->Ok_0;
    assert(value_token(v) == ts[i]);
    if comma_at(ts, i1) {
        lemma_values_sound(ts, i1 + 1);
        let (tail, j2) = values_at(ts, i1 + 1)->Ok_0;
        assert(vs == seq![v] + tail);
        assert(vs.map_values(f).drop_first() =~= tail.map_values(f));
        assert(vs.drop_first() =~= tail);
        if tail.len() >= 1 {
            lemma_comma_separated_cons(vs.map_values(f));
        }
        assert(ts.subrange(i, j) =~= seq![value_token(v), TokenView::Delimiter(',')]
            + ts.subrange(i + 2, j));
    } else {
        assert(ts.subrange(i, j) =~= seq![value_token(v)]);
    }
}

proof fn lemma_sets_sound(ts: Seq<TokenView>, i: int)
    requires
        sets_at(ts, i) is Ok,
    ensures
        ({
            let (ss, j) = sets_at(ts, i)->Ok_0;
            &&& ss.len() > 0
            &&& 0 <= i < j <= ts.len()
            &&& ts.subrange(i, j) == set_list_tokens(ss)
            &&& !comma_at(ts, j)
        }),
    decreases ts.len() - i,
{
    let f = |s: (Seq<char>, ValueView)| set_tokens(s);
    let (st, i1) = set_at(ts, i)->Ok_0;
    let (ss, j) = sets_at(ts, i)->Ok_0;
    assert(i1 == i + 3);
    assert(value_token(st.1) == ts[i + 2]);
    assert(ts.subrange(i, i + 3) =~= set_tokens(st));
    if comma_at(ts, i1) {
        lemma_sets_sound(ts, i1 + 1);
        let (tail, j2) = sets_at(ts, i1 + 1)->Ok_0;
        assert(ss == seq![st] + tail);
        assert(ss.map_values(f).drop_first() =~= tail.map_values(f));
        assert(ss.drop_first() =~= tail);
        if tail.len() >= 1 {
            lemma_comma_separated_cons(ss.map_values(f));
        }
        assert(ts.subrange(i, j) =~= set_tokens(st) + seq![TokenView::Delimiter(',')]
            + ts.subrange(i + 4, j));
    } else {
        assert(ts.subrange(i, j) =~= set_tokens(st));
    }
}

proof fn lemma_operator_spelling(s: Seq<char>)
    requires
        operator_of(s) is Some,
    ensures
        operator_spelling(operator_of(s)->Some_0) == s,
{
}

proof fn lemma_where_sound(ts: Seq<TokenView>, i: int)
    requires
        0 <= i <= ts.len(),
        where_at(ts, i) is Ok,
    ensures
        ({
            let (c, j) = where_at(ts, i)->Ok_0;
            &&& i <= j <= ts.len()
            &&& ts.subrange(i, j) == where_tokens(c)
            &&& c is None ==> token_at(ts, i) != Some(keyword("WHERE"@)) && j == i
        }),
{
    if token_at(ts, i) == Some(keyword("WHERE"@)) {
        let (c, j) = where_at(ts, i)->Ok_0;
        let cv = c->Some_0;
        assert(j == i + 4);
        assert(operand_token(cv.left) == ts[i + 1]);
        assert(operand_token(cv.right) == ts[i + 3]);
        if let TokenView::Operator(o) = ts[i + 2] {
            lemma_operator_spelling(o);
        }
        assert(ts.subrange(i, j) =~= where_tokens(c));
    } else {
        assert(ts.subrange(i, i) =~= Seq::<TokenView>::empty());
    }
}

proof fn lemma_select_sound(ts: Seq<TokenView>)
    requires
        ts.len() > 0,
        select_at(ts, 1) is Ok,
        ts[0] == keyword("SELECT"@),
    ensures
        ({
            let (q, j) = select_at(ts, 1)->Ok_0;
            &&& 0 <= j <= ts.len()
            &&& ts.subrange(0, j) == query_tokens(q)
            &&& ends_cleanly(q, ts.subrange(j, ts.len() as int))
        }),
{
    let (columns, l) = columns_at(ts, 1)->Ok_0;
    lemma_columns_sound(ts, 1);
    let (table, t) = name_at(ts, l + 1)->Ok_0;
    lemma_where_sound(ts, t);
    let (condition, j) = where_at(ts, t)->Ok_0;
    let q = select_at(ts, 1)->Ok_0.0;
    assert(ts.subrange(0, j) =~= seq![ts[0]] + ts.subrange(1, l) + seq![ts[l], ts[l + 1]]
        + ts.subrange(t, j));
    assert(token_at(ts.subrange(j, ts.len() as int), 0) == token_at(ts, j));
}

proof fn lemma_insert_sound(ts: Seq<TokenView>)
    requires
        ts.len() > 0,
        insert_at(ts, 1) is Ok,
        ts[0] == keyword("INSERT"@),
    ensures
        ({
            let (q, j) = insert_at(ts, 1)->Ok_0;
            &&& 0 <= j <= ts.len()
            &&& ts.subrange(0, j) == query_tokens(q)
            &&& ends_cleanly(q, ts.subrange(j, ts.len() as int))
        }),
{
    lemma_columns_sound(ts, 4);
    let (columns, l) = columns_at(ts, 4)->Ok_0;
    lemma_values_sound(ts, l + 3);
    let (values, m) = values_at(ts, l + 3)->Ok_0;
    let j = m + 1;
    assert(ts.subrange(0, j) =~= seq![ts[0], ts[1], ts[2], ts[3]] + ts.subrange(4, l) + seq![
        ts[l],
        ts[l + 1],
        ts[l + 2],
    ] + ts.subrange(l + 3, m) + seq![ts[m]]);
}

proof fn lemma_update_sound(ts: Seq<TokenView>)
    requires
        ts.len() > 0,
        update_at(ts, 1) is Ok,
        ts[0] == keyword("UPDATE"@),
    ensures
        ({
            let (q, j) = update_at(ts, 1)->Ok_0;
            &&& 0 <= j <= ts.len()
            &&& ts.subrange(0, j) == query_tokens(q)
            &&& ends_cleanly(q, ts.subrange(j, ts.len() as int))
        }),
{
    lemma_sets_sound(ts, 3);
    let (changes, l) = sets_at(ts, 3)->Ok_0;
    lemma_where_sound(ts, l);
    let (condition, j) = where_at(ts, l)->Ok_0;
    assert(ts.subrange(0, j) =~= seq![ts[0], ts[1], ts[2]] + ts.subrange(3, l) + ts.subrange(
        l,
        j,
    ));
    assert(token_at(ts.subrange(j, ts.len() as int), 0) == token_at(ts, j));
}

proof fn lemma_delete_sound(ts: Seq<TokenView>)
    requires
        ts.len() > 0,
        delete_at(ts, 1) is Ok,
        ts[0] == keyword("DELETE"@),
    ensures
        ({
            let (q, j) = delete_at(ts, 1)->Ok_0;
            &&& 0 <= j <= ts.len()
            &&& ts.subrange(0, j) == query_tokens(q)
            &&& ends_cleanly(q, ts.subrange(j, ts.len() as int))
        }),
{
    lemma_where_sound(ts, 3);
    let (condition, j) = where_at(ts, 3)->Ok_0;
    assert(ts.subrange(0, j) =~= seq![ts[0], ts[1], ts[2]] + ts.subrange(3, j));
    assert(token_at(ts.subrange(j, ts.len() as int), 0) == token_at(ts, j));
}

/// What parsing accepts is exactly the canonical form of the query it
/// yields, followed by tokens that do not extend that form.
pub proof fn lemma_parse_sound(ts: Seq<TokenView>)
    requires
        statement_at(ts, 0) is Ok,
    ensures
        ({
            let (q, j) = statement_at(ts, 0)->Ok_0;
            &&& well_formed(q)
            &&& 0 <= j <= ts.len()
            &&& ts.subrange(0, j) == query_tokens(q)
            &&& ends_cleanly(q, ts.subrange(j, ts.len() as int))
        }),
{
    lemma_reveal_spellings();
    if let TokenView::Keyword(k) = ts[0] {
        if k == "SELECT"@ {
            lemma_select_sound(ts);
        } else if k == "INSERT"@ {
            lemma_insert_sound(ts);
        } else if k == "UPDATE"@ {
            lemma_update_sound(ts);
        } else {
            lemma_delete_sound(ts);
        }
    }
}

/// The closing `;` is optional: any token sequence that parses, parses to the
/// same query with a `;` appended.
pub proof fn lemma_trailing_semicolon(ts: Seq<TokenView>)
    requires
        parsed(ts) is Ok,
    ensures
        parsed(ts.push(TokenView::Delimiter(';'))) == parsed(ts),
{
    lemma_parse_sound(ts);
    let (q, j) = statement_at(ts, 0)->Ok_0;
    let rest = ts.subrange(j, ts.len() as int);
    let rest2 = rest.push(TokenView::Delimiter(';'));
    assert(ts =~= ts.subrange(0, j) + rest);
    assert(ts.push(TokenView::Delimiter(';')) =~= query_tokens(q) + rest2);
    assert(ends_cleanly(q, rest2)) by {
        if rest.len() > 0 {
            assert(token_at(rest2, 0) == token_at(rest, 0));
        }
    }
    lemma_parse_canonical(q, rest2);
}

} // verus!
