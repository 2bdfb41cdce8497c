use vstd::prelude::*;
use crate::tokenizer::{Token, TokenView, views};

verus! {

broadcast use vstd::string::group_string_axioms;

/// A column name, case preserved.
#[derive(Debug, Clone)]
pub struct Column {
    pub name: String,
}

/// A table name, case preserved.
#[derive(Debug, Clone)]
pub struct Table {
    pub name: String,
}

/// A comparison in a condition.
#[derive(Debug, Clone, Copy, PartialEq, Eq, Structural)]
pub enum Operator {
    Equal,
    NotEqual,
    LessThan,
    LessOrEqual,
    GreaterThan,
    GreaterOrEqual,
}

/// A literal value. A float keeps its decimal spelling (digits with one `.`).
#[derive(Debug, Clone)]
pub enum Value {
    Integer(i64),
    Float(String),
    Text(String),
}

/// One side of a condition: a column or a literal value.
#[derive(Debug, Clone)]
pub enum ConditionEnum {
    Field(Column),
    Value(Value),
}

/// A single binary comparison.
#[derive(Debug, Clone)]
pub struct Condition {
    pub left: ConditionEnum,
    pub operator: Operator,
    pub right: ConditionEnum,
}

/// A column assignment of `UPDATE ... SET`.
#[derive(Debug, Clone)]
pub struct UpdateSet {
    pub column: Column,
    pub value: Value,
}

#[derive(Debug, Clone)]
pub struct SelectQuery {
    pub selected_columns: Vec<Column>,
    pub table_name: Table,
    pub where_clause: Option<Condition>,
}

#[derive(Debug, Clone)]
pub struct InsertQuery {
    pub table_name: Table,
    pub columns: Vec<Column>,
    pub values: Vec<Value>,
}

#[derive(Debug, Clone)]
pub struct DeleteQuery {
    pub table_name: Table,
    pub where_clause: Option<Condition>,
}

#[derive(Debug, Clone)]
pub struct UpdateQuery {
    pub table_name: Table,
    pub changes: Vec<UpdateSet>,
    pub where_clause: Option<Condition>,
}

/// A parsed statement.
#[derive(Debug, Clone)]
pub enum Query {
    Select(SelectQuery),
    Insert(InsertQuery),
    Update(UpdateQuery),
    Delete(DeleteQuery),
}

/// A diagnostic of the parser.
#[derive(Debug, Clone)]
pub enum ParseError {
    /// The statement does not begin with a keyword.
    UnexpectedStart,
    /// The statement begins with a keyword that names no statement.
    UnknownStatement,
    /// The expected token, and the one found in its place.
    ExpectedToken(Token, Token),
    /// A column or table name was expected.
    ExpectedIdentifier,
    /// A literal value, or in a condition a column or a value, was expected.
    ExpectedValue,
    /// A comparison operator was expected.
    ExpectedOperator,
    /// An operator that is no comparison, with its spelling.
    UnknownOperator(String),
    /// The tokens ended where more were needed.
    UnexpectedEndOfInput,
}

// ---------------------------------------------------------------------------
// Models
// ---------------------------------------------------------------------------

pub enum ValueView {
    Integer(i64),
    Float(Seq<char>),
    Text(Seq<char>),
}

pub enum OperandView {
    Field(Seq<char>),
    Value(ValueView),
}

pub struct ConditionView {
    pub left: OperandView,
    pub operator: Operator,
    pub right: OperandView,
}

pub enum QueryView {
    Select { columns: Seq<Seq<char>>, table: Seq<char>, condition: Option<ConditionView> },
    Insert { table: Seq<char>, columns: Seq<Seq<char>>, values: Seq<ValueView> },
    Update {
        table: Seq<char>,
        changes: Seq<(Seq<char>, ValueView)>,
        condition: Option<ConditionView>,
    },
    Delete { table: Seq<char>, condition: Option<ConditionView> },
}

pub enum ParseErrorView {
    UnexpectedStart,
    UnknownStatement,
    ExpectedToken(TokenView, TokenView),
    ExpectedIdentifier,
    ExpectedValue,
    ExpectedOperator,
    UnknownOperator(Seq<char>),
    UnexpectedEndOfInput,
}

impl View for Column {
    type V = Seq<char>;

    open spec fn view(&self) -> Seq<char> {
        self.name@
    }
}

impl View for Table {
    type V = Seq<char>;

    open spec fn view(&self) -> Seq<char> {
        self.name@
    }
}

impl View for Value {
    type V = ValueView;

    open spec fn view(&self) -> ValueView {
        match self {
            Value::Integer(n) => ValueView::Integer(*n),
            Value::Float(f) => ValueView::Float(f@),
            Value::Text(t) => ValueView::Text(t@),
        }
    }
}

impl View for ConditionEnum {
    type V = OperandView;

    open spec fn view(&self) -> OperandView {
        match self {
            ConditionEnum::Field(c) => OperandView::Field(c@),
            ConditionEnum::Value(v) => OperandView::Value(v@),
        }
    }
}

impl View for Condition {
    type V = ConditionView;

    open spec fn view(&self) -> ConditionView {
        ConditionView { left: self.left@, operator: self.operator, right: self.right@ }
    }
}

impl View for UpdateSet {
    type V = (Seq<char>, ValueView);

    open spec fn view(&self) -> (Seq<char>, ValueView) {
        (self.column@, self.value@)
    }
}

pub open spec fn column_views(cs: Seq<Column>) -> Seq<Seq<char>> {
    cs.map_values(|c: Column| c@)
}

pub open spec fn value_views(vs: Seq<Value>) -> Seq<ValueView> {
    vs.map_values(|v: Value| v@)
}

pub open spec fn set_views(ss: Seq<UpdateSet>) -> Seq<(Seq<char>, ValueView)> {
    ss.map_values(|s: UpdateSet| s@)
}

pub open spec fn condition_view(c: Option<Condition>) -> Option<ConditionView> {
    match c {
        Some(c) => Some(c@),
        None => None,
    }
}

impl View for Query {
    type V = QueryView;

    open spec fn view(&self) -> QueryView {
        match self {
            Query::Select(q) => QueryView::Select {
                columns: column_views(q.selected_columns@),
                table: q.table_name@,
                condition: condition_view(q.where_clause),
            },
            Query::Insert(q) => QueryView::Insert {
                table: q.table_name@,
                columns: column_views(q.columns@),
                values: value_views(q.values@),
            },
            Query::Update(q) => QueryView::Update {
                table: q.table_name@,
                changes: set_views(q.changes@),
                condition: condition_view(q.where_clause),
            },
            Query::Delete(q) => QueryView::Delete {
                table: q.table_name@,
                condition: condition_view(q.where_clause),
            },
        }
    }
}

impl View for ParseError {
    type V = ParseErrorView;

    open spec fn view(&self) -> ParseErrorView {
        match self {
            ParseError::UnexpectedStart => ParseErrorView::UnexpectedStart,
            ParseError::UnknownStatement => ParseErrorView::UnknownStatement,
            ParseError::ExpectedToken(e, f) => ParseErrorView::ExpectedToken(e@, f@),
            ParseError::ExpectedIdentifier => ParseErrorView::ExpectedIdentifier,
            ParseError::ExpectedValue => ParseErrorView::ExpectedValue,
            ParseError::ExpectedOperator => ParseErrorView::ExpectedOperator,
            ParseError::UnknownOperator(s) => ParseErrorView::UnknownOperator(s@),
            ParseError::UnexpectedEndOfInput => ParseErrorView::UnexpectedEndOfInput,
        }
    }
}

// ---------------------------------------------------------------------------
// Grammar over token models. Each production reads from index `i` and gives
// what it recognised with the index after it, or the first diagnostic.
// ---------------------------------------------------------------------------

pub type Parsed<T> = Result<(T, int), ParseErrorView>;

pub open spec fn token_at(ts: Seq<TokenView>, i: int) -> Option<TokenView> {
    if 0 <= i < ts.len() {
        Some(ts[i])
    } else {
        None
    }
}

pub open spec fn keyword(w: Seq<char>) -> TokenView {
    TokenView::Keyword(w)
}

/// `t` itself.
pub open spec fn expect_at(ts: Seq<TokenView>, i: int, t: TokenView) -> Result<int, ParseErrorView> {
    match token_at(ts, i) {
        None => Err(ParseErrorView::UnexpectedEndOfInput),
        Some(f) => if f == t {
            Ok(i + 1)
        } else {
            Err(ParseErrorView::ExpectedToken(t, f))
        },
    }
}

/// `column` and `table`: an identifier.
pub open spec fn name_at(ts: Seq<TokenView>, i: int) -> Parsed<Seq<char>> {
    match token_at(ts, i) {
        None => Err(ParseErrorView::UnexpectedEndOfInput),
        Some(TokenView::Identifier(n)) => Ok((n, i + 1)),
        Some(_) => Err(ParseErrorView::ExpectedIdentifier),
    }
}

pub open spec fn value_of(t: TokenView) -> Option<ValueView> {
    match t {
        TokenView::Number(n) => Some(ValueView::Integer(n)),
        TokenView::Float(f) => Some(ValueView::Float(f)),
        TokenView::StringLiteral(s) => Some(ValueView::Text(s)),
        _ => None,
    }
}

/// `value`: a number, a float or a string literal.
pub open spec fn value_at(ts: Seq<TokenView>, i: int) -> Parsed<ValueView> {
    match token_at(ts, i) {
        None => Err(ParseErrorView::UnexpectedEndOfInput),
        Some(t) => match value_of(t) {
            Some(v) => Ok((v, i + 1)),
            None => Err(ParseErrorView::ExpectedValue),
        },
    }
}

/// `operand`: a column or a value.
pub open spec fn operand_at(ts: Seq<TokenView>, i: int) -> Parsed<OperandView> {
    match token_at(ts, i) {
        None => Err(ParseErrorView::UnexpectedEndOfInput),
        Some(TokenView::Identifier(n)) => Ok((OperandView::Field(n), i + 1)),
        Some(t) => match value_of(t) {
            Some(v) => Ok((OperandView::Value(v), i + 1)),
            None => Err(ParseErrorView::ExpectedValue),
        },
    }
}

pub open spec fn operator_of(s: Seq<char>) -> Option<Operator> {
    if s == "="@ {
        Some(Operator::Equal)
    } else if s == "!="@ {
        Some(Operator::NotEqual)
    } else if s == ">"@ {
        Some(Operator::GreaterThan)
    } else if s == "<"@ {
        Some(Operator::LessThan)
    } else if s == ">="@ {
        Some(Operator::GreaterOrEqual)
    } else if s == "<="@ {
        Some(Operator::LessOrEqual)
    } else {
        None
    }
}

/// `rel_op`.
pub open spec fn operator_at(ts: Seq<TokenView>, i: int) -> Parsed<Operator> {
    match token_at(ts, i) {
        None => Err(ParseErrorView::UnexpectedEndOfInput),
        Some(TokenView::Operator(s)) => match operator_of(s) {
            Some(o) => Ok((o, i + 1)),
            None => Err(ParseErrorView::UnknownOperator(s)),
        },
        Some(_) => Err(ParseErrorView::ExpectedOperator),
    }
}

/// `condition := operand rel_op operand`.
pub open spec fn condition_at(ts: Seq<TokenView>, i: int) -> Parsed<ConditionView> {
    match operand_at(ts, i) {
        Err(e) => Err(e),
        Ok((left, j)) => match operator_at(ts, j) {
            Err(e) => Err(e),
            Ok((operator, k)) => match operand_at(ts, k) {
                Err(e) => Err(e),
                Ok((right, l)) => Ok((ConditionView { left, operator, right }, l)),
            },
        },
    }
}

/// A list outcome with `p` put in front of the items.
pub open spec fn prefixed<T>(p: Seq<T>, r: Parsed<Seq<T>>) -> Parsed<Seq<T>> {
    match r {
        Ok((xs, k)) => Ok((p + xs, k)),
        Err(e) => Err(e),
    }
}

/// Whether a list goes on after index `i`.
pub open spec fn comma_at(ts: Seq<TokenView>, i: int) -> bool {
    token_at(ts, i) == Some(TokenView::Delimiter(','))
}

/// `column_list := column (',' column)*`.
pub open spec fn columns_at(ts: Seq<TokenView>, i: int) -> Parsed<Seq<Seq<char>>>
    decreases ts.len() - i,
{
    match name_at(ts, i) {
        Err(e) => Err(e),
        Ok((c, j)) => if comma_at(ts, j) {
            prefixed(seq![c], columns_at(ts, j + 1))
        } else {
            Ok((seq![c], j))
        },
    }
}

/// `value_list := value (',' value)*`.
pub open spec fn values_at(ts: Seq<TokenView>, i: int) -> Parsed<Seq<ValueView>>
    decreases ts.len() - i,
{
    match value_at(ts, i) {
        Err(e) => Err(e),
        Ok((v, j)) => if comma_at(ts, j) {
            prefixed(seq![v], values_at(ts, j + 1))
        } else {
            Ok((seq![v], j))
        },
    }
}

/// `set := column '=' value`.
pub open spec fn set_at(ts: Seq<TokenView>, i: int) -> Parsed<(Seq<char>, ValueView)> {
    match name_at(ts, i) {
        Err(e) => Err(e),
        Ok((c, j)) => match expect_at(ts, j, TokenView::Operator("="@)) {
            Err(e) => Err(e),
            Ok(k) => match value_at(ts, k) {
                Err(e) => Err(e),
                Ok((v, l)) => Ok(((c, v), l)),
            },
        },
    }
}

/// `set_list := set (',' set)*`.
pub open spec fn sets_at(ts: Seq<TokenView>, i: int) -> Parsed<Seq<(Seq<char>, ValueView)>>
    decreases ts.len() - i,
{
    match set_at(ts, i) {
        Err(e) => Err(e),
        Ok((s, j)) => if comma_at(ts, j) {
            prefixed(seq![s], sets_at(ts, j + 1))
        } else {
            Ok((seq![s], j))
        },
    }
}

/// `[ 'WHERE' condition ]`.
pub open spec fn where_at(ts: Seq<TokenView>, i: int) -> Parsed<Option<ConditionView>> {
    if token_at(ts, i) == Some(keyword("WHERE"@)) {
        match condition_at(ts, i + 1) {
            Err(e) => Err(e),
            Ok((c, j)) => Ok((Some(c), j)),
        }
    } else {
        Ok((None, i))
    }
}

/// `select` after its keyword.
pub open spec fn select_at(ts: Seq<TokenView>, i: int) -> Parsed<QueryView> {
    match columns_at(ts, i) {
        Err(e) => Err(e),
        Ok((columns, j)) => match expect_at(ts, j, keyword("FROM"@)) {
            Err(e) => Err(e),
            Ok(k) => match name_at(ts, k) {
                Err(e) => Err(e),
                Ok((table, l)) => match where_at(ts, l) {
                    Err(e) => Err(e),
                    Ok((condition, m)) => Ok((QueryView::Select { columns, table, condition }, m)),
                },
            },
        },
    }
}

/// `insert` after its keyword.
pub open spec fn insert_at(ts: Seq<TokenView>, i: int) -> Parsed<QueryView> {
    match expect_at(ts, i, keyword("INTO"@)) {
        Err(e) => Err(e),
        Ok(i1) => match name_at(ts, i1) {
            Err(e) => Err(e),
            Ok((table, i2)) => match expect_at(ts, i2, TokenView::Delimiter('(')) {
                Err(e) => Err(e),
                Ok(i3) => match columns_at(ts, i3) {
                    Err(e) => Err(e),
                    Ok((columns, i4)) => match expect_at(ts, i4, TokenView::Delimiter(')')) {
                        Err(e) => Err(e),
                        Ok(i5) => match expect_at(ts, i5, keyword("VALUES"@)) {
                            Err(e) => Err(e),
                            Ok(i6) => match expect_at(ts, i6, TokenView::Delimiter('(')) {
                                Err(e) => Err(e),
                                Ok(i7) => match values_at(ts, i7) {
                                    Err(e) => Err(e),
                                    Ok((values, i8)) => match expect_at(
                                        ts,
                                        i8,
                                        TokenView::Delimiter(')'),
                                    ) {
                                        Err(e) => Err(e),
                                        Ok(i9) => Ok(
                                            (QueryView::Insert { table, columns, values }, i9),
                                        ),
                                    },
                                },
                            },
                        },
                    },
                },
            },
        },
    }
}

/// `update` after its keyword.
pub open spec fn update_at(ts: Seq<TokenView>, i: int) -> Parsed<QueryView> {
    match name_at(ts, i) {
        Err(e) => Err(e),
        Ok((table, j)) => match expect_at(ts, j, keyword("SET"@)) {
            Err(e) => Err(e),
            Ok(k) => match sets_at(ts, k) {
                Err(e) => Err(e),
                Ok((changes, l)) => match where_at(ts, l) {
                    Err(e) => Err(e),
                    Ok((condition, m)) => Ok((QueryView::Update { table, changes, condition }, m)),
                },
            },
        },
    }
}

/// `delete` after its keyword.
pub open spec fn delete_at(ts: Seq<TokenView>, i: int) -> Parsed<QueryView> {
    match expect_at(ts, i, keyword("FROM"@)) {
        Err(e) => Err(e),
        Ok(j) => match name_at(ts, j) {
            Err(e) => Err(e),
            Ok((table, k)) => match where_at(ts, k) {
                Err(e) => Err(e),
                Ok((condition, l)) => Ok((QueryView::Delete { table, condition }, l)),
            },
        },
    }
}

/// A statement at index `i`, dispatched on its first token.
pub open spec fn statement_at(ts: Seq<TokenView>, i: int) -> Parsed<QueryView> {
    match token_at(ts, i) {
        None => Err(ParseErrorView::UnexpectedEndOfInput),
        Some(TokenView::Keyword(k)) => if k == "SELECT"@ {
            select_at(ts, i + 1)
        } else if k == "INSERT"@ {
            insert_at(ts, i + 1)
        } else if k == "UPDATE"@ {
            update_at(ts, i + 1)
        } else if k == "DELETE"@ {
            delete_at(ts, i + 1)
        } else {
            Err(ParseErrorView::UnknownStatement)
        },
        Some(_) => Err(ParseErrorView::UnexpectedStart),
    }
}

/// The statement that a token sequence begins with. Tokens after it, such
/// as a closing `;`, are left alone.
pub open spec fn parsed(ts: Seq<TokenView>) -> Result<QueryView, ParseErrorView> {
    match statement_at(ts, 0) {
        Ok((q, _)) => Ok(q),
        Err(e) => Err(e),
    }
}

/// Whether an outcome of an executable production agrees with the grammar.
pub open spec fn agrees<T: View>(r: Result<T, ParseError>, g: Parsed<T::V>, end: int) -> bool {
    match g {
        Ok((v, j)) => r is Ok && r->Ok_0@ == v && end == j,
        Err(e) => r is Err && r->Err_0@ == e,
    }
}

/// Whether a parse outcome agrees with the grammar.
pub open spec fn parse_result_matches(
    r: Result<Query, ParseError>,
    g: Result<QueryView, ParseErrorView>,
) -> bool {
    match g {
        Ok(q) => r is Ok && r->Ok_0@ == q,
        Err(e) => r is Err && r->Err_0@ == e,
    }
}

proof fn lemma_prefixed_push<T>(p: Seq<T>, x: T, r: Parsed<Seq<T>>)
    ensures
        prefixed(p, prefixed(seq![x], r)) == prefixed(p.push(x), r),
{
    if let Ok((xs, k)) = r {
        assert(p + (seq![x] + xs) =~= p.push(x) + xs);
    }
}

proof fn lemma_prefixed_empty<T>(r: Parsed<Seq<T>>)
    ensures
        prefixed(Seq::empty(), r) == r,
{
    if let Ok((xs, k)) = r {
        assert(Seq::<T>::empty() + xs =~= xs);
    }
}

proof fn lemma_map_push<A, B>(s: Seq<A>, x: A, f: spec_fn(A) -> B)
    ensures
        s.push(x).map_values(f) == s.map_values(f).push(f(x)),
{
    assert(s.push(x).map_values(f) =~= s.map_values(f).push(f(x)));
}

/// A cursor over a read-only token sequence.
pub struct Parser<'a> {
    tokens: &'a Vec<Token>,
    position: usize,
}

impl<'a> Parser<'a> {
    /// The models of the tokens read.
    pub closed spec fn toks(&self) -> Seq<TokenView> {
        views(self.tokens@)
    }

    /// The cursor.
    pub closed spec fn pos(&self) -> int {
        self.position as int
    }

    pub closed spec fn wf(&self) -> bool {
        self.position <= self.tokens@.len()
    }

    closed spec fn kept(&self, before: &Self) -> bool {
        &&& self.wf()
        &&& self.tokens == before.tokens
    }

    pub fn new(token_stream: &'a Vec<Token>) -> (r: Self)
        ensures
            r.wf(),
            r.toks() == views(token_stream@),
            r.pos() == 0,
    {
        Parser { tokens: token_stream, position: 0 }
    }

    /// Parses the statement at the cursor and leaves the cursor after it.
    pub fn parse(&mut self) -> (r: Result<Query, ParseError>)
        requires
            old(self).wf(),
        ensures
            final(self).wf(),
            final(self).toks() == old(self).toks(),
            agrees(r, statement_at(old(self).toks(), old(self).pos()), final(self).pos()),
    {
        let start = self.advance();
        match start {
            Ok(Token::Keyword(keyword)) => {
                if keyword == String::from_str("SELECT") {
                    match self.handle_select() {
                        Ok(q) => Ok(Query::Select(q)),
                        Err(e) => Err(e),
                    }
                } else if keyword == String::from_str("INSERT") {
                    match self.handle_insert() {
                        Ok(q) => Ok(Query::Insert(q)),
                        Err(e) => Err(e),
                    }
                } else if keyword == String::from_str("UPDATE") {
                    match self.handle_update() {
                        Ok(q) => Ok(Query::Update(q)),
                        Err(e) => Err(e),
                    }
                } else if keyword == String::from_str("DELETE") {
                    match self.handle_delete() {
                        Ok(q) => Ok(Query::Delete(q)),
                        Err(e) => Err(e),
                    }
                } else {
                    Err(ParseError::UnknownStatement)
                }
            },
            Ok(_) => Err(ParseError::UnexpectedStart),
            Err(e) => Err(e),
        }
    }

    fn handle_select(&mut self) -> (r: Result<SelectQuery, ParseError>)
        requires
            old(self).wf(),
        ensures
            final(self).kept(old(self)),
            match select_at(old(self).toks(), old(self).pos()) {
                Ok((q, j)) => r is Ok && (QueryView::Select {
                    columns: column_views(r->Ok_0.selected_columns@),
                    table: r->Ok_0.table_name@,
                    condition: condition_view(r->Ok_0.where_clause),
                }) == q && final(self).pos() == j,
                Err(e) => r is Err && r->Err_0@ == e,
            },
    {
        let columns = match self.parse_column_list() {
            Ok(c) => c,
            Err(e) => return Err(e),
        };
        if let Err(e) = self.consume_token(Token::Keyword(String::from_str("FROM"))) {
            return Err(e);
        }
        let table = match self.parse_table() {
            Ok(t) => t,
            Err(e) => return Err(e),
        };
        let where_clause = match self.parse_where() {
            Ok(w) => w,
            Err(e) => return Err(e),
        };
        Ok(SelectQuery { selected_columns: columns, table_name: table, where_clause })
    }

    fn handle_insert(&mut self) -> (r: Result<InsertQuery, ParseError>)
        requires
            old(self).wf(),
        ensures
            final(self).kept(old(self)),
            match insert_at(old(self).toks(), old(self).pos()) {
                Ok((q, j)) => r is Ok && (QueryView::Insert {
                    table: r->Ok_0.table_name@,
                    columns: column_views(r->Ok_0.columns@),
                    values: value_views(r->Ok_0.values@),
                }) == q && final(self).pos() == j,
                Err(e) => r is Err && r->Err_0@ == e,
            },
    {
        if let Err(e) = self.consume_token(Token::Keyword(String::from_str("INTO"))) {
            return Err(e);
        }
        let table = match self.parse_table() {
            Ok(t) => t,
            Err(e) => return Err(e),
        };
        if let Err(e) = self.consume_token(Token::Delimiter('(')) {
            return Err(e);
        }
        let columns = match self.parse_column_list() {
            Ok(c) => c,
            Err(e) => return Err(e),
        };
        if let Err(e) = self.consume_token(Token::Delimiter(')')) {
            return Err(e);
        }
        if let Err(e) = self.consume_token(Token::Keyword(String::from_str("VALUES"))) {
            return Err(e);
        }
        if let Err(e) = self.consume_token(Token::Delimiter('(')) {
            return Err(e);
        }
        let values = match self.parse_value_list() {
            Ok(v) => v,
            Err(e) => return Err(e),
        };
        if let Err(e) = self.consume_token(Token::Delimiter(')')) {
            return Err(e);
        }
        Ok(InsertQuery { table_name: table, columns, values })
    }

    fn handle_update(&mut self) -> (r: Result<UpdateQuery, ParseError>)
        requires
            old(self).wf(),
        ensures
            final(self).kept(old(self)),
            match update_at(old(self).toks(), old(self).pos()) {
                Ok((q, j)) => r is Ok && (QueryView::Update {
                    table: r->Ok_0.table_name@,
                    changes: set_views(r->Ok_0.changes@),
                    condition: condition_view(r->Ok_0.where_clause),
                }) == q && final(self).pos() == j,
                Err(e) => r is Err && r->Err_0@ == e,
            },
    {
        let table = match self.parse_table() {
            Ok(t) => t,
            Err(e) => return Err(e),
        };
        if let Err(e) = self.consume_token(Token::Keyword(String::from_str("SET"))) {
            return Err(e);
        }
        let update_changes = match self.parse_set_list() {
            Ok(c) => c,
            Err(e) => return Err(e),
        };
        let where_clause = match self.parse_where() {
            Ok(w) => w,
            Err(e) => return Err(e),
        };
        Ok(UpdateQuery { table_name: table, changes: update_changes, where_clause })
    }

    fn handle_delete(&mut self) -> (r: Result<DeleteQuery, ParseError>)
        requires
            old(self).wf(),
        ensures
            final(self).kept(old(self)),
            match delete_at(old(self).toks(), old(self).pos()) {
                Ok((q, j)) => r is Ok && (QueryView::Delete {
                    table: r->Ok_0.table_name@,
                    condition: condition_view(r->Ok_0.where_clause),
                }) == q && final(self).pos() == j,
                Err(e) => r is Err && r->Err_0@ == e,
            },
    {
        if let Err(e) = self.consume_token(Token::Keyword(String::from_str("FROM"))) {
            return Err(e);
        }
        let table = match self.parse_table() {
            Ok(t) => t,
            Err(e) => return Err(e),
        };
        let where_clause = match self.parse_where() {
            Ok(w) => w,
            Err(e) => return Err(e),
        };
        Ok(DeleteQuery { table_name: table, where_clause })
    }

    fn parse_where(&mut self) -> (r: Result<Option<Condition>, ParseError>)
        requires
            old(self).wf(),
        ensures
            final(self).kept(old(self)),
            match where_at(old(self).toks(), old(self).pos()) {
                Ok((c, j)) => r is Ok && condition_view(r->Ok_0) == c && final(self).pos() == j,
                Err(e) => r is Err && r->Err_0@ == e,
            },
    {
        if self.check_keyword("WHERE") {
            let _ = self.advance();
            match self.parse_condition() {
                Ok(c) => Ok(Some(c)),
                Err(e) => Err(e),
            }
        } else {
            Ok(None)
        }
    }

    fn parse_set_list(&mut self) -> (r: Result<Vec<UpdateSet>, ParseError>)
        requires
            old(self).wf(),
        ensures
            final(self).kept(old(self)),
            match sets_at(old(self).toks(), old(self).pos()) {
                Ok((ss, j)) => r is Ok && set_views(r->Ok_0@) == ss && final(self).pos() == j,
                Err(e) => r is Err && r->Err_0@ == e,
            },
    {
        let ghost ts = self.toks();
        let mut changes: Vec<UpdateSet> = Vec::new();
        proof {
            lemma_prefixed_empty(sets_at(ts, self.pos()));
        }
        loop
            invariant
                self.kept(old(self)),
                ts == self.toks(),
                prefixed(set_views(changes@), sets_at(ts, self.pos())) == sets_at(
                    ts,
                    old(self).pos(),
                ),
            decreases self.tokens.len() - self.position,
        {
            let ghost here = self.pos();
            let change = match self.parse_set() {
                Ok(c) => c,
                Err(e) => return Err(e),
            };
            proof {
                lemma_map_push(changes@, change, |s: UpdateSet| s@);
                lemma_prefixed_push(set_views(changes@), change@, sets_at(ts, self.pos() + 1));
            }
            changes.push(change);
            if self.check(&Token::Delimiter(',')) {
                let _ = self.advance();
            } else {
                return Ok(changes);
            }
        }
    }

    fn parse_set(&mut self) -> (r: Result<UpdateSet, ParseError>)
        requires
            old(self).wf(),
        ensures
            final(self).kept(old(self)),
            agrees(r, set_at(old(self).toks(), old(self).pos()), final(self).pos()),
    {
        let column = match self.parse_column() {
            Ok(c) => c,
            Err(e) => return Err(e),
        };
        if let Err(e) = self.consume_token(Token::Operator(String::from_str("="))) {
            return Err(e);
        }
        let value = match self.parse_value() {
            Ok(v) => v,
            Err(e) => return Err(e),
        };
        Ok(UpdateSet { column, value })
    }

    fn parse_value_list(&mut self) -> (r: Result<Vec<Value>, ParseError>)
        requires
            old(self).wf(),
        ensures
            final(self).kept(old(self)),
            match values_at(old(self).toks(), old(self).pos()) {
                Ok((vs, j)) => r is Ok && value_views(r->Ok_0@) == vs && final(self).pos() == j,
                Err(e) => r is Err && r->Err_0@ == e,
            },
    {
        let ghost ts = self.toks();
        let mut values: Vec<Value> = Vec::new();
        proof {
            lemma_prefixed_empty(values_at(ts, self.pos()));
        }
        loop
            invariant
                self.kept(old(self)),
                ts == self.toks(),
                prefixed(value_views(values@), values_at(ts, self.pos())) == values_at(
                    ts,
                    old(self).pos(),
                ),
            decreases self.tokens.len() - self.position,
        {
            let value = match self.parse_value() {
                Ok(v) => v,
                Err(e) => return Err(e),
            };
            proof {
                lemma_map_push(values@, value, |v: Value| v@);
                lemma_prefixed_push(value_views(values@), value@, values_at(ts, self.pos() + 1));
            }
            values.push(value);
            if self.check(&Token::Delimiter(',')) {
                let _ = self.advance();
            } else {
                return Ok(values);
            }
        }
    }

    fn parse_value(&mut self) -> (r: Result<Value, ParseError>)
        requires
            old(self).wf(),
        ensures
            final(self).kept(old(self)),
            agrees(r, value_at(old(self).toks(), old(self).pos()), final(self).pos()),
    {
        match self.advance() {
            Ok(Token::Float(value)) => Ok(Value::Float(value)),
            Ok(Token::Number(value)) => Ok(Value::Integer(value)),
            Ok(Token::StringLiteral(text)) => Ok(Value::Text(text)),
            Ok(_) => Err(ParseError::ExpectedValue),
            Err(e) => Err(e),
        }
    }

    fn parse_column_list(&mut self) -> (r: Result<Vec<Column>, ParseError>)
        requires
            old(self).wf(),
        ensures
            final(self).kept(old(self)),
            match columns_at(old(self).toks(), old(self).pos()) {
                Ok((cs, j)) => r is Ok && column_views(r->Ok_0@) == cs && final(self).pos() == j,
                Err(e) => r is Err && r->Err_0@ == e,
            },
    {
        let ghost ts = self.toks();
        let mut columns: Vec<Column> = Vec::new();
        proof {
            lemma_prefixed_empty(columns_at(ts, self.pos()));
        }
        loop
            invariant
                self.kept(old(self)),
                ts == self.toks(),
                prefixed(column_views(columns@), columns_at(ts, self.pos())) == columns_at(
                    ts,
                    old(self).pos(),
                ),
            decreases self.tokens.len() - self.position,
        {
            let column = match self.parse_column() {
                Ok(c) => c,
                Err(e) => return Err(e),
            };
            proof {
                lemma_map_push(columns@, column, |c: Column| c@);
                lemma_prefixed_push(column_views(columns@), column@, columns_at(ts, self.pos() + 1));
            }
            columns.push(column);
            if self.check(&Token::Delimiter(',')) {
                let _ = self.advance();
            } else {
                return Ok(columns);
            }
        }
    }

    fn parse_column(&mut self) -> (r: Result<Column, ParseError>)
        requires
            old(self).wf(),
        ensures
            final(self).kept(old(self)),
            agrees(r, name_at(old(self).toks(), old(self).pos()), final(self).pos()),
    {
        match self.advance() {
            Ok(Token::Identifier(name)) => Ok(Column { name }),
            Ok(_) => Err(ParseError::ExpectedIdentifier),
            Err(e) => Err(e),
        }
    }

    fn parse_table(&mut self) -> (r: Result<Table, ParseError>)
        requires
            old(self).wf(),
        ensures
            final(self).kept(old(self)),
            agrees(r, name_at(old(self).toks(), old(self).pos()), final(self).pos()),
    {
        match self.advance() {
            Ok(Token::Identifier(name)) => Ok(Table { name }),
            Ok(_) => Err(ParseError::ExpectedIdentifier),
            Err(e) => Err(e),
        }
    }

    fn parse_condition(&mut self) -> (r: Result<Condition, ParseError>)
        requires
            old(self).wf(),
        ensures
            final(self).kept(old(self)),
            agrees(r, condition_at(old(self).toks(), old(self).pos()), final(self).pos()),
    {
        let left = match self.parse_expression() {
            Ok(l) => l,
            Err(e) => return Err(e),
        };
        let operator = match self.parse_operator() {
            Ok(o) => o,
            Err(e) => return Err(e),
        };
        let right = match self.parse_expression() {
            Ok(r) => r,
            Err(e) => return Err(e),
        };
        Ok(Condition { left, operator, right })
    }

    fn parse_expression(&mut self) -> (r: Result<ConditionEnum, ParseError>)
        requires
            old(self).wf(),
        ensures
            final(self).kept(old(self)),
            agrees(r, operand_at(old(self).toks(), old(self).pos()), final(self).pos()),
    {
        match self.advance() {
            Ok(Token::Identifier(name)) => Ok(ConditionEnum::Field(Column { name })),
            Ok(Token::StringLiteral(text)) => Ok(ConditionEnum::Value(Value::Text(text))),
            Ok(Token::Float(float)) => Ok(ConditionEnum::Value(Value::Float(float))),
            Ok(Token::Number(integer)) => Ok(ConditionEnum::Value(Value::Integer(integer))),
            Ok(_) => Err(ParseError::ExpectedValue),
            Err(e) => Err(e),
        }
    }

    fn parse_operator(&mut self) -> (r: Result<Operator, ParseError>)
        requires
            old(self).wf(),
        ensures
            final(self).kept(old(self)),
            match operator_at(old(self).toks(), old(self).pos()) {
                Ok((o, j)) => r == Ok::<Operator, ParseError>(o) && final(self).pos() == j,
                Err(e) => r is Err && r->Err_0@ == e,
            },
    {
        match self.advance() {
            Ok(Token::Operator(op)) => {
                if op == String::from_str("=") {
                    Ok(Operator::Equal)
                } else if op == String::from_str("!=") {
                    Ok(Operator::NotEqual)
                } else if op == String::from_str(">") {
                    Ok(Operator::GreaterThan)
                } else if op == String::from_str("<") {
                    Ok(Operator::LessThan)
                } else if op == String::from_str(">=") {
                    Ok(Operator::GreaterOrEqual)
                } else if op == String::from_str("<=") {
                    Ok(Operator::LessOrEqual)
                } else {
                    Err(ParseError::UnknownOperator(op))
                }
            },
            Ok(_) => Err(ParseError::ExpectedOperator),
            Err(e) => Err(e),
        }
    }

    /// Takes the token at the cursor and moves past it.
    fn advance(&mut self) -> (r: Result<Token, ParseError>)
        requires
            old(self).wf(),
        ensures
            final(self).kept(old(self)),
            match token_at(old(self).toks(), old(self).pos()) {
                Some(t) => r is Ok && r->Ok_0@ == t && final(self).pos() == old(self).pos() + 1,
                None => r is Err && r->Err_0@ == ParseErrorView::UnexpectedEndOfInput
                    && final(self).pos() == old(self).pos(),
            },
    {
        if self.position < self.tokens.len() {
            let token = self.tokens[self.position].copied();
            self.position += 1;
            Ok(token)
        } else {
            Err(ParseError::UnexpectedEndOfInput)
        }
    }

    /// The token at the cursor.
    fn peek(&self) -> (r: Result<&Token, ParseError>)
        requires
            self.wf(),
        ensures
            match token_at(self.toks(), self.pos()) {
                Some(t) => r is Ok && r->Ok_0@ == t,
                None => r is Err && r->Err_0@ == ParseErrorView::UnexpectedEndOfInput,
            },
    {
        if self.position < self.tokens.len() {
            Ok(&self.tokens[self.position])
        } else {
            Err(ParseError::UnexpectedEndOfInput)
        }
    }

    /// Whether the token at the cursor is the keyword `keyword`.
    fn check_keyword(&self, keyword: &str) -> (r: bool)
        requires
            self.wf(),
        ensures
            r == (token_at(self.toks(), self.pos()) == Some(TokenView::Keyword(keyword@))),
    {
        if let Ok(Token::Keyword(k)) = self.peek() {
            *k == String::from_str(keyword)
        } else {
            false
        }
    }

    /// Moves past the token at the cursor if it is `keyword`.
    fn consume_token(&mut self, keyword: Token) -> (r: Result<(), ParseError>)
        requires
            old(self).wf(),
        ensures
            final(self).kept(old(self)),
            match expect_at(old(self).toks(), old(self).pos(), keyword@) {
                Ok(j) => r is Ok && final(self).pos() == j,
                Err(e) => r is Err && r->Err_0@ == e,
            },
    {
        match self.peek() {
            Ok(found) => {
                if *found == keyword {
                    let _ = self.advance();
                    Ok(())
                } else {
                    Err(ParseError::ExpectedToken(keyword, found.copied()))
                }
            },
            Err(e) => Err(e),
        }
    }

    /// Whether the token at the cursor is `expected`.
    fn check(&self, expected: &Token) -> (r: bool)
        requires
            self.wf(),
        ensures
            r == (token_at(self.toks(), self.pos()) == Some(expected@)),
    {
        match self.peek() {
            Ok(found) => *found == *expected,
            Err(_) => false,
        }
    }
}

/// Parses the statement that a token sequence begins with.
pub fn parse(tokens: &Vec<Token>) -> (r: Result<Query, ParseError>)
    ensures
        parse_result_matches(r, parsed(views(tokens@))),
{
    let mut parser = Parser::new(tokens);
    parser.parse()
}

} // verus!
