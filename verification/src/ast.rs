//! The syntax tree: programs, statements and expressions.

use crate::text::strings_view;
use crate::token::Token;
use crate::token::TokenView;
use vstd::prelude::*;
use vstd::std_specs::cmp::PartialEqSpecImpl;

verus! {

/// A block: the statements between a pair of braces, in order. The bodies of
/// `if`, `while` and functions are blocks by construction.
pub type Block = Vec<Statement>;

/// A whole program: its top-level statements, in order.
#[derive(Debug)]
pub struct Program {
    pub statements: Vec<Statement>,
}

#[derive(Debug)]
pub enum Statement {
    Let { name: String, value: Expression },
    Return(Expression),
    Expression(Expression),
    Block(Block),
    If { condition: Expression, consequence: Block, alternative: Option<Block> },
    While { condition: Expression, body: Block },
    Function { name: String, params: Vec<String>, body: Block },
}

#[derive(Debug)]
pub enum Expression {
    Identifier(String),
    Integer(i64),
    String(String),
    Boolean(bool),
    Prefix { operator: Token, right: Box<Expression> },
    Infix { left: Box<Expression>, operator: Token, right: Box<Expression> },
    Call { function: Box<Expression>, arguments: Vec<Expression> },
}

/// The mathematical value of an `Expression`.
pub enum ExpressionView {
    Identifier(Seq<char>),
    Integer(i64),
    String(Seq<char>),
    Boolean(bool),
    Prefix { operator: TokenView, right: Box<ExpressionView> },
    Infix { left: Box<ExpressionView>, operator: TokenView, right: Box<ExpressionView> },
    Call { function: Box<ExpressionView>, arguments: Seq<ExpressionView> },
}

/// The mathematical value of a `Statement`.
pub enum StatementView {
    Let { name: Seq<char>, value: ExpressionView },
    Return(ExpressionView),
    Expression(ExpressionView),
    Block(Seq<StatementView>),
    If {
        condition: ExpressionView,
        consequence: Seq<StatementView>,
        alternative: Option<Seq<StatementView>>,
    },
    While { condition: ExpressionView, body: Seq<StatementView> },
    Function { name: Seq<char>, params: Seq<Seq<char>>, body: Seq<StatementView> },
}

/// The value of an expression.
pub open spec fn expression_view(expression: Expression) -> ExpressionView
    decreases expression,
{
    match expression {
        Expression::Identifier(name) => ExpressionView::Identifier(name@),
        Expression::Integer(value) => ExpressionView::Integer(value),
        Expression::String(value) => ExpressionView::String(value@),
        Expression::Boolean(value) => ExpressionView::Boolean(value),
        Expression::Prefix { operator, right } => ExpressionView::Prefix {
            operator: operator@,
            right: Box::new(expression_view(*right)),
        },
        Expression::Infix { left, operator, right } => ExpressionView::Infix {
            left: Box::new(expression_view(*left)),
            operator: operator@,
            right: Box::new(expression_view(*right)),
        },
        Expression::Call { function, arguments } => ExpressionView::Call {
            function: Box::new(expression_view(*function)),
            arguments: expressions_view(arguments@),
        },
    }
}

/// The values of a sequence of expressions.
pub open spec fn expressions_view(expressions: Seq<Expression>) -> Seq<ExpressionView>
    decreases expressions,
{
    Seq::new(
        expressions.len(),
        |i: int|
            if 0 <= i < expressions.len() {
                expression_view(expressions[i])
            } else {
                ExpressionView::Boolean(false)
            },
    )
}

/// The value of a statement.
pub open spec fn statement_view(statement: Statement) -> StatementView
    decreases statement,
{
    match statement {
        Statement::Let { name, value } => StatementView::Let {
            name: name@,
            value: expression_view(value),
        },
        Statement::Return(value) => StatementView::Return(expression_view(value)),
        Statement::Expression(value) => StatementView::Expression(expression_view(value)),
        Statement::Block(statements) => StatementView::Block(statements_view(statements@)),
        Statement::If { condition, consequence, alternative } => StatementView::If {
            condition: expression_view(condition),
            consequence: statements_view(consequence@),
            alternative: match alternative {
                Some(block) => Some(statements_view(block@)),
                None => None,
            },
        },
        Statement::While { condition, body } => StatementView::While {
            condition: expression_view(condition),
            body: statements_view(body@),
        },
        Statement::Function { name, params, body } => StatementView::Function {
            name: name@,
            params: strings_view(params@),
            body: statements_view(body@),
        },
    }
}

/// The values of a sequence of statements.
pub open spec fn statements_view(statements: Seq<Statement>) -> Seq<StatementView>
    decreases statements,
{
    Seq::new(
        statements.len(),
        |i: int|
            if 0 <= i < statements.len() {
                statement_view(statements[i])
            } else {
                StatementView::Block(Seq::empty())
            },
    )
}

impl View for Expression {
    type V = ExpressionView;

    open spec fn view(&self) -> ExpressionView {
        expression_view(*self)
    }
}

impl View for Statement {
    type V = StatementView;

    open spec fn view(&self) -> StatementView {
        statement_view(*self)
    }
}

impl View for Program {
    type V = Seq<StatementView>;

    open spec fn view(&self) -> Seq<StatementView> {
        statements_view(self.statements@)
    }
}

/// Appending an expression appends its value.
pub proof fn lemma_expressions_push(expressions: Seq<Expression>, last: Expression)
    ensures
        expressions_view(expressions.push(last)) == expressions_view(expressions).push(last@),
{
    assert(expressions_view(expressions.push(last)) =~= expressions_view(expressions).push(last@));
}

/// Appending a statement appends its value.
pub proof fn lemma_statements_push(statements: Seq<Statement>, last: Statement)
    ensures
        statements_view(statements.push(last)) == statements_view(statements).push(last@),
{
    assert(statements_view(statements.push(last)) =~= statements_view(statements).push(last@));
}

/// Whether two lists of names hold the same names in the same order.
pub fn names_eq(a: &Vec<String>, b: &Vec<String>) -> (r: bool)
    ensures
        r == (strings_view(a@) == strings_view(b@)),
{
    if a.len() != b.len() {
        assert(strings_view(a@).len() != strings_view(b@).len());
        return false;
    }
    let mut i: usize = 0;
    while i < a.len()
        invariant
            i <= a.len(),
            a.len() == b.len(),
            forall|k: int| 0 <= k < i ==> a@[k]@ == b@[k]@,
        decreases a.len() - i,
    {
        if a[i] != b[i] {
            assert(strings_view(a@)[i as int] != strings_view(b@)[i as int]);
            return false;
        }
        i += 1;
    }
    assert(strings_view(a@) =~= strings_view(b@));
    true
}

/// A copy of a list of names.
pub fn names_clone(a: &Vec<String>) -> (r: Vec<String>)
    ensures
        strings_view(r@) == strings_view(a@),
{
    let mut r: Vec<String> = Vec::new();
    let mut i: usize = 0;
    while i < a.len()
        invariant
            i <= a.len(),
            r.len() == i,
            forall|k: int| 0 <= k < i ==> r@[k]@ == a@[k]@,
        decreases a.len() - i,
    {
        r.push(a[i].clone());
        i += 1;
    }
    assert(strings_view(r@) =~= strings_view(a@));
    r
}

/// Whether two expressions have the same value.
pub fn expression_eq(a: &Expression, b: &Expression) -> (r: bool)
    ensures
        r == (a@ == b@),
    decreases a,
{
    match (a, b) {
        (Expression::Identifier(x), Expression::Identifier(y)) => *x == *y,
        (Expression::Integer(x), Expression::Integer(y)) => *x == *y,
        (Expression::String(x), Expression::String(y)) => *x == *y,
        (Expression::Boolean(x), Expression::Boolean(y)) => *x == *y,
        (
            Expression::Prefix { operator: op_a, right: right_a },
            Expression::Prefix { operator: op_b, right: right_b },
        ) => *op_a == *op_b && expression_eq(right_a, right_b),
        (
            Expression::Infix { left: left_a, operator: op_a, right: right_a },
            Expression::Infix { left: left_b, operator: op_b, right: right_b },
        ) => expression_eq(left_a, left_b) && *op_a == *op_b && expression_eq(right_a, right_b),
        (
            Expression::Call { function: function_a, arguments: arguments_a },
            Expression::Call { function: function_b, arguments: arguments_b },
        ) => expression_eq(function_a, function_b) && expressions_eq(arguments_a, arguments_b),
        _ => false,
    }
}

/// Whether two lists of expressions have the same values in the same order.
pub fn expressions_eq(a: &Vec<Expression>, b: &Vec<Expression>) -> (r: bool)
    ensures
        r == (expressions_view(a@) == expressions_view(b@)),
    decreases a,
{
    if a.len() != b.len() {
        assert(expressions_view(a@).len() != expressions_view(b@).len());
        return false;
    }
    let mut i: usize = 0;
    while i < a.len()
        invariant
            i <= a.len(),
            a.len() == b.len(),
            forall|k: int| 0 <= k < i ==> a@[k]@ == b@[k]@,
        decreases a.len() - i,
    {
        if !expression_eq(&a[i], &b[i]) {
            assert(expressions_view(a@)[i as int] != expressions_view(b@)[i as int]);
            return false;
        }
        i += 1;
    }
    assert(expressions_view(a@) =~= expressions_view(b@));
    true
}

/// Whether two statements have the same value.
pub fn statement_eq(a: &Statement, b: &Statement) -> (r: bool)
    ensures
        r == (a@ == b@),
    decreases a,
{
    match (a, b) {
        (
            Statement::Let { name: name_a, value: value_a },
            Statement::Let { name: name_b, value: value_b },
        ) => *name_a == *name_b && expression_eq(value_a, value_b),
        (Statement::Return(x), Statement::Return(y)) => expression_eq(x, y),
        (Statement::Expression(x), Statement::Expression(y)) => expression_eq(x, y),
        (Statement::Block(x), Statement::Block(y)) => statements_eq(x, y),
        (
            Statement::If { condition: condition_a, consequence: then_a, alternative: else_a },
            Statement::If { condition: condition_b, consequence: then_b, alternative: else_b },
        ) => {
            let same_else = match (else_a, else_b) {
                (Some(x), Some(y)) => statements_eq(x, y),
                (None, None) => true,
                _ => false,
            };
            expression_eq(condition_a, condition_b) && statements_eq(then_a, then_b) && same_else
        },
        (
            Statement::While { condition: condition_a, body: body_a },
            Statement::While { condition: condition_b, body: body_b },
        ) => expression_eq(condition_a, condition_b) && statements_eq(body_a, body_b),
        (
            Statement::Function { name: name_a, params: params_a, body: body_a },
            Statement::Function { name: name_b, params: params_b, body: body_b },
        ) => *name_a == *name_b && names_eq(params_a, params_b) && statements_eq(body_a, body_b),
        _ => false,
    }
}

/// Whether two lists of statements have the same values in the same order.
pub fn statements_eq(a: &Vec<Statement>, b: &Vec<Statement>) -> (r: bool)
    ensures
        r == (statements_view(a@) == statements_view(b@)),
    decreases a,
{
    if a.len() != b.len() {
        assert(statements_view(a@).len() != statements_view(b@).len());
        return false;
    }
    let mut i: usize = 0;
    while i < a.len()
        invariant
            i <= a.len(),
            a.len() == b.len(),
            forall|k: int| 0 <= k < i ==> a@[k]@ == b@[k]@,
        decreases a.len() - i,
    {
        if !statement_eq(&a[i], &b[i]) {
            assert(statements_view(a@)[i as int] != statements_view(b@)[i as int]);
            return false;
        }
        i += 1;
    }
    assert(statements_view(a@) =~= statements_view(b@));
    true
}

/// A copy of an expression.
pub fn expression_clone(a: &Expression) -> (r: Expression)
    ensures
        r@ == a@,
    decreases a,
{
    match a {
        Expression::Identifier(name) => Expression::Identifier(name.clone()),
        Expression::Integer(value) => Expression::Integer(*value),
        Expression::String(value) => Expression::String(value.clone()),
        Expression::Boolean(value) => Expression::Boolean(*value),
        Expression::Prefix { operator, right } => Expression::Prefix {
            operator: operator.clone(),
            right: Box::new(expression_clone(right)),
        },
        Expression::Infix { left, operator, right } => Expression::Infix {
            left: Box::new(expression_clone(left)),
            operator: operator.clone(),
            right: Box::new(expression_clone(right)),
        },
        Expression::Call { function, arguments } => Expression::Call {
            function: Box::new(expression_clone(function)),
            arguments: expressions_clone(arguments),
        },
    }
}

/// A copy of a list of expressions.
pub fn expressions_clone(a: &Vec<Expression>) -> (r: Vec<Expression>)
    ensures
        expressions_view(r@) == expressions_view(a@),
    decreases a,
{
    let mut r: Vec<Expression> = Vec::new();
    let mut i: usize = 0;
    while i < a.len()
        invariant
            i <= a.len(),
            r.len() == i,
            forall|k: int| 0 <= k < i ==> r@[k]@ == a@[k]@,
        decreases a.len() - i,
    {
        r.push(expression_clone(&a[i]));
        i += 1;
    }
    assert(expressions_view(r@) =~= expressions_view(a@));
    r
}

/// A copy of a statement.
pub fn statement_clone(a: &Statement) -> (r: Statement)
    ensures
        r@ == a@,
    decreases a,
{
    match a {
        Statement::Let { name, value } => Statement::Let {
            name: name.clone(),
            value: expression_clone(value),
        },
        Statement::Return(value) => Statement::Return(expression_clone(value)),
        Statement::Expression(value) => Statement::Expression(expression_clone(value)),
        Statement::Block(statements) => Statement::Block(statements_clone(statements)),
        Statement::If { condition, consequence, alternative } => Statement::If {
            condition: expression_clone(condition),
            consequence: statements_clone(consequence),
            alternative: match alternative {
                Some(block) => Some(statements_clone(block)),
                None => None,
            },
        },
        Statement::While { condition, body } => Statement::While {
            condition: expression_clone(condition),
            body: statements_clone(body),
        },
        Statement::Function { name, params, body } => Statement::Function {
            name: name.clone(),
            params: names_clone(params),
            body: statements_clone(body),
        },
    }
}

/// A copy of a list of statements.
pub fn statements_clone(a: &Vec<Statement>) -> (r: Vec<Statement>)
    ensures
        statements_view(r@) == statements_view(a@),
    decreases a,
{
    let mut r: Vec<Statement> = Vec::new();
    let mut i: usize = 0;
    while i < a.len()
        invariant
            i <= a.len(),
            r.len() == i,
            forall|k: int| 0 <= k < i ==> r@[k]@ == a@[k]@,
        decreases a.len() - i,
    {
        r.push(statement_clone(&a[i]));
        i += 1;
    }
    assert(statements_view(r@) =~= statements_view(a@));
    r
}

impl PartialEq for Expression {
    fn eq(&self, other: &Expression) -> (r: bool) {
        expression_eq(self, other)
    }
}

impl PartialEqSpecImpl for Expression {
    open spec fn obeys_eq_spec() -> bool {
        true
    }

    open spec fn eq_spec(&self, other: &Expression) -> bool {
        self@ == other@
    }
}

impl PartialEq for Statement {
    fn eq(&self, other: &Statement) -> (r: bool) {
        statement_eq(self, other)
    }
}

impl PartialEqSpecImpl for Statement {
    open spec fn obeys_eq_spec() -> bool {
        true
    }

    open spec fn eq_spec(&self, other: &Statement) -> bool {
        self@ == other@
    }
}

impl PartialEq for Program {
    fn eq(&self, other: &Program) -> (r: bool) {
        statements_eq(&self.statements, &other.statements)
    }
}

impl PartialEqSpecImpl for Program {
    open spec fn obeys_eq_spec() -> bool {
        true
    }

    open spec fn eq_spec(&self, other: &Program) -> bool {
        self@ == other@
    }
}

impl Clone for Expression {
    fn clone(&self) -> (r: Expression)
        ensures
            r@ == self@,
    {
        expression_clone(self)
    }
}

impl Clone for Statement {
    fn clone(&self) -> (r: Statement)
        ensures
            r@ == self@,
    {
        statement_clone(self)
    }
}

impl Clone for Program {
    fn clone(&self) -> (r: Program)
        ensures
            r@ == self@,
    {
        Program { statements: statements_clone(&self.statements) }
    }
}

} // verus!
