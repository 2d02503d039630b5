//! Runtime values and the operations on them.

use vstd::prelude::*;
use vstd::string::{StringExecFns, StrSliceExecFns};
use crate::errors::{BaseError, ErrorModel, failure, interpreter_error};
use crate::interpreter::{Memory, ValueResult};
use crate::number::{
    count_of, from_integer, negate, negated, number_eq, number_from, number_le, number_lt, test_eq,
    test_le, test_lt, to_count,
};
use crate::parser::{ASTNode, NodeModel, node_model};

verus! {

/// Handle of a value in the heap or of a frame in the scope arena.
pub type RegIndex = usize;

/// A runtime value.
#[derive(Debug)]
pub enum Value {
    Null,
    /// A number, as the bits of its binary64 value.
    Number(u64),
    Bool(bool),
    String(String),
    /// A function provided by the host, by name.
    Builtin(String),
    /// A closure: parameters, body, and the scope it was created in.
    Function { arg_names: Vec<String>, code: Box<ASTNode>, scope_id: RegIndex },
    /// An array holds handles of its elements, not the elements.
    Array(Vec<RegIndex>),
    /// A type marker, the right operand of a cast.
    TypeName(String),
}

/// Mathematical model of a [`Value`].
pub enum ValueModel {
    Null,
    Number(u64),
    Bool(bool),
    String(Seq<char>),
    Builtin(Seq<char>),
    Function { arg_names: Seq<Seq<char>>, code: Box<NodeModel>, scope_id: RegIndex },
    Array(Seq<RegIndex>),
    TypeName(Seq<char>),
}

/// The texts of a sequence of names.
pub open spec fn names_model(names: Seq<String>) -> Seq<Seq<char>> {
    Seq::new(names.len(), |i: int| names[i]@)
}

/// A copy of a list of names.
pub fn clone_names(names: &Vec<String>) -> (res: Vec<String>)
    ensures
        names_model(res@) == names_model(names@),
{
    let mut out: Vec<String> = Vec::new();
    let mut i: usize = 0;
    while i < names.len()
        invariant
            i <= names.len(),
            out.len() == i,
            forall|j: int| 0 <= j < i ==> out@[j]@ == names@[j]@,
        decreases names.len() - i,
    {
        out.push(names[i].clone());
        i = i + 1;
    }
    assert(names_model(out@) =~= names_model(names@));
    out
}

/// A copy of a list of handles.
pub fn clone_handles(handles: &Vec<RegIndex>) -> (res: Vec<RegIndex>)
    ensures
        res@ == handles@,
{
    let mut out: Vec<RegIndex> = Vec::new();
    let mut i: usize = 0;
    while i < handles.len()
        invariant
            i <= handles.len(),
            out.len() == i,
            forall|j: int| 0 <= j < i ==> out@[j] == handles@[j],
        decreases handles.len() - i,
    {
        out.push(handles[i]);
        i = i + 1;
    }
    assert(out@ =~= handles@);
    out
}

/// The model of a value: texts and sequences in place of strings and vectors.
pub open spec fn value_model(value: Value) -> ValueModel
    decreases value,
{
    match value {
        Value::Null => ValueModel::Null,
        Value::Number(bits) => ValueModel::Number(bits),
        Value::Bool(b) => ValueModel::Bool(b),
        Value::String(text) => ValueModel::String(text@),
        Value::Builtin(name) => ValueModel::Builtin(name@),
        Value::Function { arg_names, code, scope_id } => ValueModel::Function {
            arg_names: names_model(arg_names@),
            code: Box::new(node_model(*code)),
            scope_id,
        },
        Value::Array(handles) => ValueModel::Array(handles@),
        Value::TypeName(name) => ValueModel::TypeName(name@),
    }
}

impl View for Value {
    type V = ValueModel;

    open spec fn view(&self) -> ValueModel {
        value_model(*self)
    }
}

impl Clone for Value {
    /// A deep copy: a value with the same model. An array's copy shares the
    /// element handles.
    fn clone(&self) -> (res: Self)
        ensures
            res@ == self@,
        decreases self,
    {
        match self {
            Value::Null => Value::Null,
            Value::Number(bits) => Value::Number(*bits),
            Value::Bool(b) => Value::Bool(*b),
            Value::String(text) => Value::String(text.clone()),
            Value::Builtin(name) => Value::Builtin(name.clone()),
            Value::Function { arg_names, code, scope_id } => Value::Function {
                arg_names: clone_names(arg_names),
                code: Box::new((**code).clone()),
                scope_id: *scope_id,
            },
            Value::Array(handles) => Value::Array(clone_handles(handles)),
            Value::TypeName(name) => Value::TypeName(name.clone()),
        }
    }
}

/// Rounding arithmetic on two numbers, which the host performs.
#[derive(Debug, Clone, Copy, PartialEq, Eq)]
pub enum NumberOp {
    Add,
    Sub,
    Mul,
    Div,
    /// The remainder with the sign of the dividend.
    Rem,
    Pow,
}

/// A function of one number, which the host computes.
#[derive(Debug, Clone, Copy, PartialEq, Eq)]
pub enum NumberFn {
    Sin,
    Cos,
    Tan,
}

/// A piece of a print form: text, or a number that the host renders in
/// shortest round-trip decimal.
#[derive(Debug)]
pub enum Piece {
    Text(String),
    Number(u64),
}

/// Mathematical model of a [`Piece`].
pub enum PieceModel {
    Text(Seq<char>),
    Number(u64),
}

impl View for Piece {
    type V = PieceModel;

    open spec fn view(&self) -> PieceModel {
        match self {
            Piece::Text(text) => PieceModel::Text(text@),
            Piece::Number(bits) => PieceModel::Number(*bits),
        }
    }
}

impl Clone for Piece {
    fn clone(&self) -> (res: Self)
        ensures
            res@ == self@,
    {
        match self {
            Piece::Text(text) => Piece::Text(text.clone()),
            Piece::Number(bits) => Piece::Number(*bits),
        }
    }
}

/// The models of a sequence of pieces.
pub open spec fn pieces_model(pieces: Seq<Piece>) -> Seq<PieceModel> {
    Seq::new(pieces.len(), |i: int| pieces[i]@)
}

/// What an operation on values comes to: a value, or a question to the host
/// whose answer is the value.
#[derive(Debug)]
pub enum Computed {
    /// The result itself.
    Value(Value),
    /// The result is the number `left op right`.
    Binary { op: NumberOp, left: u64, right: u64 },
    /// The result is the number `function(argument)`.
    Unary { function: NumberFn, argument: u64 },
    /// The result is the number that `text` denotes; the operation fails if
    /// it denotes none.
    Parse { text: String },
    /// The result is the string that the pieces render to.
    Render { pieces: Vec<Piece> },
}

/// Mathematical model of a [`Computed`].
pub enum ComputedModel {
    Value(ValueModel),
    Binary { op: NumberOp, left: u64, right: u64 },
    Unary { function: NumberFn, argument: u64 },
    Parse { text: Seq<char> },
    Render { pieces: Seq<PieceModel> },
}

impl View for Computed {
    type V = ComputedModel;

    open spec fn view(&self) -> ComputedModel {
        match self {
            Computed::Value(value) => ComputedModel::Value(value@),
            Computed::Binary { op, left, right } => ComputedModel::Binary {
                op: *op,
                left: *left,
                right: *right,
            },
            Computed::Unary { function, argument } => ComputedModel::Unary {
                function: *function,
                argument: *argument,
            },
            Computed::Parse { text } => ComputedModel::Parse { text: text@ },
            Computed::Render { pieces } => ComputedModel::Render { pieces: pieces_model(pieces@) },
        }
    }
}

/// What an operation yields when the host may have to finish it.
pub type Computation = Result<Computed, BaseError>;

/// The model of the outcome of an operation that yields a value.
pub open spec fn result_model(res: ValueResult) -> Result<ValueModel, ErrorModel> {
    match res {
        Ok(value) => Ok(value@),
        Err(error) => Err(error@),
    }
}

/// The model of the outcome of an operation that the host may have to finish.
pub open spec fn computation_model(res: Computation) -> Result<ComputedModel, ErrorModel> {
    match res {
        Ok(computed) => Ok(computed@),
        Err(error) => Err(error@),
    }
}

/// An arithmetic operator applied to two values: on two numbers it is the
/// host's to compute; on anything else it is a type error with `message`.
pub open spec fn arithmetic(op: NumberOp, a: ValueModel, b: ValueModel, message: Seq<char>) -> Result<
    ComputedModel,
    ErrorModel,
> {
    match (a, b) {
        (ValueModel::Number(x), ValueModel::Number(y)) => Ok(
            ComputedModel::Binary { op, left: x, right: y },
        ),
        _ => Err(failure(message)),
    }
}

/// A function of one number applied to a value.
pub open spec fn function_of(function: NumberFn, a: ValueModel) -> Result<ComputedModel, ErrorModel> {
    match a {
        ValueModel::Number(x) => Ok(ComputedModel::Unary { function, argument: x }),
        _ => Err(failure("Expected number for argument"@)),
    }
}

/// The text `s` repeated `n` times.
pub open spec fn repeated(s: Seq<char>, n: nat) -> Seq<char>
    decreases n,
{
    if n == 0 {
        Seq::empty()
    } else {
        repeated(s, (n - 1) as nat) + s
    }
}

/// Whether the cells `i` and `j` hold equal values, looking at most `depth`
/// cells deep. One cell equals itself; a cell that is gone equals no other.
pub open spec fn handles_equal(
    i: RegIndex,
    j: RegIndex,
    cells: Map<RegIndex, ValueModel>,
    depth: nat,
) -> bool
    decreases depth, 0nat,
{
    if i == j {
        true
    } else if !cells.contains_key(i) || !cells.contains_key(j) {
        false
    } else if depth == 0 {
        true
    } else {
        equal_within(cells[i], cells[j], cells, (depth - 1) as nat)
    }
}

/// Structural equality of two values, looking at most `depth` cells deep:
/// equal atoms of one kind, or arrays of one length whose elements are equal
/// position by position. Functions and builtins equal nothing. With `depth`
/// at the number of live cells, no comparison of finite structures is cut
/// short.
pub open spec fn equal_within(
    a: ValueModel,
    b: ValueModel,
    cells: Map<RegIndex, ValueModel>,
    depth: nat,
) -> bool
    decreases depth, 1nat,
{
    match (a, b) {
        (ValueModel::Null, ValueModel::Null) => true,
        (ValueModel::Number(x), ValueModel::Number(y)) => number_eq(x, y),
        (ValueModel::Bool(x), ValueModel::Bool(y)) => x == y,
        (ValueModel::String(x), ValueModel::String(y)) => x == y,
        (ValueModel::TypeName(x), ValueModel::TypeName(y)) => x == y,
        (ValueModel::Array(xs), ValueModel::Array(ys)) => xs.len() == ys.len() && forall|k: int|
            0 <= k < xs.len() ==> handles_equal(#[trigger] xs[k], ys[k], cells, depth),
        _ => false,
    }
}

/// Whether `==` and `!=` are defined on two values: both of one comparable
/// kind.
pub open spec fn comparable(a: ValueModel, b: ValueModel) -> bool {
    match (a, b) {
        (ValueModel::Null, ValueModel::Null) => true,
        (ValueModel::Number(_), ValueModel::Number(_)) => true,
        (ValueModel::Bool(_), ValueModel::Bool(_)) => true,
        (ValueModel::String(_), ValueModel::String(_)) => true,
        (ValueModel::TypeName(_), ValueModel::TypeName(_)) => true,
        (ValueModel::Array(_), ValueModel::Array(_)) => true,
        _ => false,
    }
}

impl ValueModel {
    /// `+`: numbers add, strings and arrays concatenate, and an array's
    /// concatenation shares the element handles.
    pub open spec fn plus(self, other: ValueModel) -> Result<ComputedModel, ErrorModel> {
        match (self, other) {
            (ValueModel::Number(x), ValueModel::Number(y)) => Ok(
                ComputedModel::Binary { op: NumberOp::Add, left: x, right: y },
            ),
            (ValueModel::String(x), ValueModel::String(y)) => Ok(
                ComputedModel::Value(ValueModel::String(x + y)),
            ),
            (ValueModel::Array(x), ValueModel::Array(y)) => Ok(
                ComputedModel::Value(ValueModel::Array(x + y)),
            ),
            _ => Err(failure("Operation '+' not defined for types"@)),
        }
    }

    /// `*`: numbers multiply; a string times a number is the string repeated
    /// as many times as the number's integer part says.
    pub open spec fn mult(self, other: ValueModel) -> Result<ComputedModel, ErrorModel> {
        match (self, other) {
            (ValueModel::Number(x), ValueModel::Number(y)) => Ok(
                ComputedModel::Binary { op: NumberOp::Mul, left: x, right: y },
            ),
            (ValueModel::String(x), ValueModel::Number(y)) => Ok(
                ComputedModel::Value(ValueModel::String(repeated(x, count_of(y) as nat))),
            ),
            _ => Err(failure("Operation '*' not defined for types"@)),
        }
    }

    /// `-`.
    pub open spec fn minus(self, other: ValueModel) -> Result<ComputedModel, ErrorModel> {
        arithmetic(NumberOp::Sub, self, other, "Operation '-' not defined for types"@)
    }

    /// `/`.
    pub open spec fn div(self, other: ValueModel) -> Result<ComputedModel, ErrorModel> {
        arithmetic(NumberOp::Div, self, other, "Operation '/' not defined for types"@)
    }

    /// `%`.
    pub open spec fn rem(self, other: ValueModel) -> Result<ComputedModel, ErrorModel> {
        arithmetic(NumberOp::Rem, self, other, "Operation '%' not defined for types"@)
    }

    /// `^`.
    pub open spec fn pow(self, other: ValueModel) -> Result<ComputedModel, ErrorModel> {
        arithmetic(NumberOp::Pow, self, other, "Operation '^' not defined for types"@)
    }

    /// `>`: defined on two numbers only.
    pub open spec fn gr(self, other: ValueModel) -> Result<ValueModel, ErrorModel> {
        match (self, other) {
            (ValueModel::Number(x), ValueModel::Number(y)) => Ok(ValueModel::Bool(number_lt(y, x))),
            _ => Err(failure("Operation '>' not defined for types"@)),
        }
    }

    /// `>=`: defined on two numbers only.
    pub open spec fn greq(self, other: ValueModel) -> Result<ValueModel, ErrorModel> {
        match (self, other) {
            (ValueModel::Number(x), ValueModel::Number(y)) => Ok(ValueModel::Bool(number_le(y, x))),
            _ => Err(failure("Operation '>=' not defined for types"@)),
        }
    }

    /// `<`: defined on two numbers only.
    pub open spec fn sm(self, other: ValueModel) -> Result<ValueModel, ErrorModel> {
        match (self, other) {
            (ValueModel::Number(x), ValueModel::Number(y)) => Ok(ValueModel::Bool(number_lt(x, y))),
            _ => Err(failure("Operation '<' not defined for types"@)),
        }
    }

    /// `<=`: defined on two numbers only.
    pub open spec fn smeq(self, other: ValueModel) -> Result<ValueModel, ErrorModel> {
        match (self, other) {
            (ValueModel::Number(x), ValueModel::Number(y)) => Ok(ValueModel::Bool(number_le(x, y))),
            _ => Err(failure("Operation '<=' not defined for types"@)),
        }
    }

    /// `sin`.
    pub open spec fn sin(self) -> Result<ComputedModel, ErrorModel> {
        function_of(NumberFn::Sin, self)
    }

    /// `cos`.
    pub open spec fn cos(self) -> Result<ComputedModel, ErrorModel> {
        function_of(NumberFn::Cos, self)
    }

    /// `tan`.
    pub open spec fn tan(self) -> Result<ComputedModel, ErrorModel> {
        function_of(NumberFn::Tan, self)
    }

    /// Unary `-`.
    pub open spec fn neg(self) -> Result<ValueModel, ErrorModel> {
        match self {
            ValueModel::Number(x) => Ok(ValueModel::Number(negated(x))),
            _ => Err(failure("Unary operation '-' not defined for type"@)),
        }
    }

    /// Unary `+`.
    pub open spec fn give(self) -> Result<ValueModel, ErrorModel> {
        match self {
            ValueModel::Number(x) => Ok(ValueModel::Number(x)),
            _ => Err(failure("Unary operation '+' not defined for type"@)),
        }
    }

    /// Unary `!`.
    pub open spec fn not(self) -> Result<ValueModel, ErrorModel> {
        match self {
            ValueModel::Bool(x) => Ok(ValueModel::Bool(!x)),
            _ => Err(failure("Unary operation '!' not defined for type"@)),
        }
    }

    /// The truth value: defined on booleans only.
    pub open spec fn to_bool(self) -> Result<bool, ErrorModel> {
        match self {
            ValueModel::Bool(x) => Ok(x),
            _ => Err(failure("Cannot convert to boolean"@)),
        }
    }

    /// The length: an array's number of elements, a string's number of
    /// characters.
    pub open spec fn len(self) -> Result<ValueModel, ErrorModel> {
        match self {
            ValueModel::Array(x) => Ok(ValueModel::Number(from_integer(x.len() as u64))),
            ValueModel::String(x) => Ok(ValueModel::Number(from_integer(x.len() as u64))),
            _ => Err(failure("Cannot get length of type"@)),
        }
    }

    /// `==` in a heap with the cells `cells`.
    pub open spec fn eq(self, other: ValueModel, cells: Map<RegIndex, ValueModel>) -> Result<
        ValueModel,
        ErrorModel,
    > {
        if comparable(self, other) {
            Ok(ValueModel::Bool(equal_within(self, other, cells, cells.dom().len())))
        } else {
            Err(failure("Operation '==' not defined for types"@))
        }
    }

    /// `!=` in a heap with the cells `cells`.
    pub open spec fn neq(self, other: ValueModel, cells: Map<RegIndex, ValueModel>) -> Result<
        ValueModel,
        ErrorModel,
    > {
        if comparable(self, other) {
            Ok(ValueModel::Bool(!equal_within(self, other, cells, cells.dom().len())))
        } else {
            Err(failure("Operation '!=' not defined for types"@))
        }
    }
}

fn type_error(message: &str) -> (res: ValueResult)
    ensures
        result_model(res) == Err::<ValueModel, ErrorModel>(failure(message@)),
{
    Err(interpreter_error(message))
}

fn type_failure(message: &str) -> (res: Computation)
    ensures
        computation_model(res) == Err::<ComputedModel, ErrorModel>(failure(message@)),
{
    Err(interpreter_error(message))
}

/// Whether a string holds the text of `literal`.
pub fn is_text(s: &String, literal: &str) -> (res: bool)
    ensures
        res == (s@ == literal@),
{
    let other = String::from_str(literal);
    s.eq(&other)
}

fn repeat(s: &String, n: usize) -> (res: String)
    ensures
        res@ == repeated(s@, n as nat),
{
    let mut out = String::new();
    if s.as_str().unicode_len() == 0 {
        proof {
            lemma_repeated_empty(s@, n as nat);
        }
        return out;
    }
    let mut i: usize = 0;
    while i < n
        invariant
            i <= n,
            out@ == repeated(s@, i as nat),
        decreases n - i,
    {
        out.append(s.as_str());
        i = i + 1;
    }
    out
}

proof fn lemma_repeated_empty(s: Seq<char>, n: nat)
    requires
        s.len() == 0,
    ensures
        repeated(s, n) =~= Seq::<char>::empty(),
    decreases n,
{
    if n > 0 {
        lemma_repeated_empty(s, (n - 1) as nat);
    }
}

fn concat_handles(a: &Vec<RegIndex>, b: &Vec<RegIndex>) -> (res: Vec<RegIndex>)
    ensures
        res@ == a@ + b@,
{
    let mut out = clone_handles(a);
    let mut i: usize = 0;
    while i < b.len()
        invariant
            i <= b.len(),
            out@ == a@ + b@.take(i as int),
        decreases b.len() - i,
    {
        out.push(b[i]);
        assert(out@ =~= a@ + b@.take(i + 1));
        i = i + 1;
    }
    assert(b@.take(b@.len() as int) =~= b@);
    out
}

impl Value {
    /// `+`.
    pub fn plus(&self, other: &Value) -> (res: Computation)
        ensures
            computation_model(res) == self@.plus(other@),
    {
        match (self, other) {
            (Value::Number(x), Value::Number(y)) => Ok(
                Computed::Binary { op: NumberOp::Add, left: *x, right: *y },
            ),
            (Value::String(x), Value::String(y)) => {
                let mut text = x.clone();
                text.append(y.as_str());
                Ok(Computed::Value(Value::String(text)))
            },
            (Value::Array(x), Value::Array(y)) => Ok(
                Computed::Value(Value::Array(concat_handles(x, y))),
            ),
            _ => type_failure("Operation '+' not defined for types"),
        }
    }

    /// `-`.
    pub fn minus(&self, other: &Value) -> (res: Computation)
        ensures
            computation_model(res) == self@.minus(other@),
    {
        match (self, other) {
            (Value::Number(x), Value::Number(y)) => Ok(
                Computed::Binary { op: NumberOp::Sub, left: *x, right: *y },
            ),
            _ => type_failure("Operation '-' not defined for types"),
        }
    }

    /// `*`.
    pub fn mult(&self, other: &Value) -> (res: Computation)
        ensures
            computation_model(res) == self@.mult(other@),
    {
        match (self, other) {
            (Value::Number(x), Value::Number(y)) => Ok(
                Computed::Binary { op: NumberOp::Mul, left: *x, right: *y },
            ),
            (Value::String(x), Value::Number(y)) => Ok(
                Computed::Value(Value::String(repeat(x, to_count(*y)))),
            ),
            _ => type_failure("Operation '*' not defined for types"),
        }
    }

    /// `/`.
    pub fn div(&self, other: &Value) -> (res: Computation)
        ensures
            computation_model(res) == self@.div(other@),
    {
        match (self, other) {
            (Value::Number(x), Value::Number(y)) => Ok(
                Computed::Binary { op: NumberOp::Div, left: *x, right: *y },
            ),
            _ => type_failure("Operation '/' not defined for types"),
        }
    }

    /// `%`.
    pub fn rem(&self, other: &Value) -> (res: Computation)
        ensures
            computation_model(res) == self@.rem(other@),
    {
        match (self, other) {
            (Value::Number(x), Value::Number(y)) => Ok(
                Computed::Binary { op: NumberOp::Rem, left: *x, right: *y },
            ),
            _ => type_failure("Operation '%' not defined for types"),
        }
    }

    /// `^`.
    pub fn pow(&self, other: &Value) -> (res: Computation)
        ensures
            computation_model(res) == self@.pow(other@),
    {
        match (self, other) {
            (Value::Number(x), Value::Number(y)) => Ok(
                Computed::Binary { op: NumberOp::Pow, left: *x, right: *y },
            ),
            _ => type_failure("Operation '^' not defined for types"),
        }
    }

    /// Unary `-`.
    pub fn neg(&self) -> (res: ValueResult)
        ensures
            result_model(res) == self@.neg(),
    {
        match self {
            Value::Number(x) => Ok(Value::Number(negate(*x))),
            _ => type_error("Unary operation '-' not defined for type"),
        }
    }

    /// Unary `+`.
    pub fn give(&self) -> (res: ValueResult)
        ensures
            result_model(res) == self@.give(),
    {
        match self {
            Value::Number(x) => Ok(Value::Number(*x)),
            _ => type_error("Unary operation '+' not defined for type"),
        }
    }

    /// Unary `!`.
    pub fn not(&self) -> (res: ValueResult)
        ensures
            result_model(res) == self@.not(),
    {
        match self {
            Value::Bool(x) => Ok(Value::Bool(!*x)),
            _ => type_error("Unary operation '!' not defined for type"),
        }
    }

    /// The truth value of a boolean; there is no truthiness of other kinds.
    pub fn to_bool(&self) -> (res: Result<bool, BaseError>)
        ensures
            match res {
                Ok(b) => self@.to_bool() == Ok::<bool, ErrorModel>(b),
                Err(e) => self@.to_bool() == Err::<bool, ErrorModel>(e@),
            },
    {
        match self {
            Value::Bool(x) => Ok(*x),
            _ => Err(interpreter_error("Cannot convert to boolean")),
        }
    }

    /// The length of an array or a string, as a number.
    pub fn len(&self) -> (res: ValueResult)
        ensures
            result_model(res) == self@.len(),
    {
        match self {
            Value::Array(x) => Ok(Value::Number(number_from(x.len() as u64))),
            Value::String(x) => Ok(Value::Number(number_from(x.as_str().unicode_len() as u64))),
            _ => type_error("Cannot get length of type"),
        }
    }

    /// `>`.
    pub fn gr(&self, other: &Value) -> (res: ValueResult)
        ensures
            result_model(res) == self@.gr(other@),
    {
        match (self, other) {
            (Value::Number(x), Value::Number(y)) => Ok(Value::Bool(test_lt(*y, *x))),
            _ => type_error("Operation '>' not defined for types"),
        }
    }

    /// `>=`.
    pub fn greq(&self, other: &Value) -> (res: ValueResult)
        ensures
            result_model(res) == self@.greq(other@),
    {
        match (self, other) {
            (Value::Number(x), Value::Number(y)) => Ok(Value::Bool(test_le(*y, *x))),
            _ => type_error("Operation '>=' not defined for types"),
        }
    }

    /// `<`.
    pub fn sm(&self, other: &Value) -> (res: ValueResult)
        ensures
            result_model(res) == self@.sm(other@),
    {
        match (self, other) {
            (Value::Number(x), Value::Number(y)) => Ok(Value::Bool(test_lt(*x, *y))),
            _ => type_error("Operation '<' not defined for types"),
        }
    }

    /// `<=`.
    pub fn smeq(&self, other: &Value) -> (res: ValueResult)
        ensures
            result_model(res) == self@.smeq(other@),
    {
        match (self, other) {
            (Value::Number(x), Value::Number(y)) => Ok(Value::Bool(test_le(*x, *y))),
            _ => type_error("Operation '<=' not defined for types"),
        }
    }

    /// `sin` of a number.
    pub fn sin(&self) -> (res: Computation)
        ensures
            computation_model(res) == self@.sin(),
    {
        match self {
            Value::Number(x) => Ok(Computed::Unary { function: NumberFn::Sin, argument: *x }),
            _ => type_failure("Expected number for argument"),
        }
    }

    /// `cos` of a number.
    pub fn cos(&self) -> (res: Computation)
        ensures
            computation_model(res) == self@.cos(),
    {
        match self {
            Value::Number(x) => Ok(Computed::Unary { function: NumberFn::Cos, argument: *x }),
            _ => type_failure("Expected number for argument"),
        }
    }

    /// `tan` of a number.
    pub fn tan(&self) -> (res: Computation)
        ensures
            computation_model(res) == self@.tan(),
    {
        match self {
            Value::Number(x) => Ok(Computed::Unary { function: NumberFn::Tan, argument: *x }),
            _ => type_failure("Expected number for argument"),
        }
    }

    /// Structural equality, looking at most `depth` cells deep.
    fn equal_to_depth(&self, other: &Value, memory: &Memory, depth: usize) -> (res: bool)
        ensures
            res == equal_within(self@, other@, memory@.cells, depth as nat),
        decreases depth, 1nat,
    {
        match (self, other) {
            (Value::Null, Value::Null) => true,
            (Value::Number(x), Value::Number(y)) => test_eq(*x, *y),
            (Value::Bool(x), Value::Bool(y)) => *x == *y,
            (Value::String(x), Value::String(y)) => x.eq(y),
            (Value::TypeName(x), Value::TypeName(y)) => x.eq(y),
            (Value::Array(xs), Value::Array(ys)) => {
                if xs.len() != ys.len() {
                    return false;
                }
                let mut k: usize = 0;
                while k < xs.len()
                    invariant
                        k <= xs.len(),
                        xs.len() == ys.len(),
                        self@ == ValueModel::Array(xs@),
                        other@ == ValueModel::Array(ys@),
                        forall|m: int|
                            0 <= m < k ==> handles_equal(
                                #[trigger] xs@[m],
                                ys@[m],
                                memory@.cells,
                                depth as nat,
                            ),
                    decreases xs.len() - k,
                {
                    if !Self::cells_equal(xs[k], ys[k], memory, depth) {
                        assert(!handles_equal(
                            xs@[k as int],
                            ys@[k as int],
                            memory@.cells,
                            depth as nat,
                        ));
                        return false;
                    }
                    k = k + 1;
                }
                true
            },
            _ => false,
        }
    }

    fn cells_equal(i: RegIndex, j: RegIndex, memory: &Memory, depth: usize) -> (res: bool)
        ensures
            res == handles_equal(i, j, memory@.cells, depth as nat),
        decreases depth, 0nat,
    {
        if i == j {
            return true;
        }
        match (memory.lookup(i), memory.lookup(j)) {
            (Some(a), Some(b)) => {
                if depth == 0 {
                    true
                } else {
                    a.equal_to_depth(b, memory, depth - 1)
                }
            },
            _ => false,
        }
    }

    /// Structural equality in the heap `memory`.
    pub fn internal_equal(&self, other: &Value, memory: &Memory) -> (res: bool)
        ensures
            res == equal_within(self@, other@, memory@.cells, memory@.cells.dom().len()),
    {
        self.equal_to_depth(other, memory, memory.len())
    }

    fn is_comparable(&self, other: &Value) -> (res: bool)
        ensures
            res == comparable(self@, other@),
    {
        match (self, other) {
            (Value::Null, Value::Null) => true,
            (Value::Number(_), Value::Number(_)) => true,
            (Value::Bool(_), Value::Bool(_)) => true,
            (Value::String(_), Value::String(_)) => true,
            (Value::TypeName(_), Value::TypeName(_)) => true,
            (Value::Array(_), Value::Array(_)) => true,
            _ => false,
        }
    }

    /// `==`.
    pub fn eq(&self, other: &Value, memory: &Memory) -> (res: ValueResult)
        ensures
            result_model(res) == self@.eq(other@, memory@.cells),
    {
        if self.is_comparable(other) {
            Ok(Value::Bool(self.internal_equal(other, memory)))
        } else {
            type_error("Operation '==' not defined for types")
        }
    }

    /// `!=`.
    pub fn neq(&self, other: &Value, memory: &Memory) -> (res: ValueResult)
        ensures
            result_model(res) == self@.neq(other@, memory@.cells),
    {
        if self.is_comparable(other) {
            Ok(Value::Bool(!self.internal_equal(other, memory)))
        } else {
            type_error("Operation '!=' not defined for types")
        }
    }
}

/// The models of a sequence of values.
pub open spec fn values_model(values: Seq<Value>) -> Seq<ValueModel> {
    Seq::new(values.len(), |i: int| values[i]@)
}

/// One piece of text.
pub open spec fn text(s: Seq<char>) -> Seq<PieceModel> {
    seq![PieceModel::Text(s)]
}

/// Whether `value` equals one of the arrays that are being printed around it.
pub open spec fn is_visited(
    value: ValueModel,
    cells: Map<RegIndex, ValueModel>,
    visited: Seq<ValueModel>,
) -> bool {
    exists|k: int|
        0 <= k < visited.len() && equal_within(
            #[trigger] visited[k],
            value,
            cells,
            cells.dom().len(),
        )
}

/// The print form of a value: literals as they are written, strings without
/// quotes, arrays as their elements between brackets. An array that equals
/// one being printed around it is printed as `[...]`, which ends every
/// cycle. `depth` bounds the cells entered; with `depth` at the number of
/// live cells a path runs into an array printed around it before the bound.
pub open spec fn print_form(
    value: ValueModel,
    cells: Map<RegIndex, ValueModel>,
    visited: Seq<ValueModel>,
    depth: nat,
) -> Seq<PieceModel>
    decreases depth, 2nat, 0nat,
{
    match value {
        ValueModel::Null => text("Null"@),
        ValueModel::Number(bits) => seq![PieceModel::Number(bits)],
        ValueModel::Bool(b) => if b {
            text("True"@)
        } else {
            text("False"@)
        },
        ValueModel::String(s) => text(s),
        ValueModel::TypeName(name) => text("#"@ + name),
        ValueModel::Builtin(name) => text("<builtin: "@ + name + ">"@),
        ValueModel::Function { .. } => text("|...| {...}"@),
        ValueModel::Array(elements) => if is_visited(value, cells, visited) {
            text("[...]"@)
        } else {
            text("["@) + print_elements(elements, 0, cells, visited.push(value), depth) + text(
                "]"@,
            )
        },
    }
}

/// The print forms of the elements from position `from` on, with a comma
/// before each but the first. An element whose cell is gone prints as
/// `Null`.
pub open spec fn print_elements(
    elements: Seq<RegIndex>,
    from: int,
    cells: Map<RegIndex, ValueModel>,
    visited: Seq<ValueModel>,
    depth: nat,
) -> Seq<PieceModel>
    decreases depth, 1nat, elements.len() - from,
{
    if from < 0 || from >= elements.len() {
        Seq::empty()
    } else {
        let comma = if from > 0 {
            text(","@)
        } else {
            Seq::empty()
        };
        let h = elements[from];
        let element = if !cells.contains_key(h) {
            text("Null"@)
        } else if depth == 0 {
            text("[...]"@)
        } else {
            print_form(cells[h], cells, visited, (depth - 1) as nat)
        };
        comma + element + print_elements(elements, from + 1, cells, visited, depth)
    }
}

impl ValueModel {
    /// `as`: a string as `#number` is the host's to parse; a string as
    /// `#string` is itself; anything else as `#string` is its print form,
    /// which the host renders; no other cast is defined.
    pub open spec fn cast_to(self, target: ValueModel, cells: Map<RegIndex, ValueModel>) -> Result<
        ComputedModel,
        ErrorModel,
    > {
        match target {
            ValueModel::TypeName(name) => match self {
                ValueModel::String(v) => if name == "number"@ {
                    Ok(ComputedModel::Parse { text: v })
                } else if name == "string"@ {
                    Ok(ComputedModel::Value(ValueModel::String(v)))
                } else {
                    Err(failure("Couldn't convert"@))
                },
                _ => if name == "string"@ {
                    Ok(
                        ComputedModel::Render {
                            pieces: print_form(self, cells, Seq::empty(), cells.dom().len()),
                        },
                    )
                } else {
                    Err(failure("Couldn't convert"@))
                },
            },
            _ => Err(failure("Casting not defined for types"@)),
        }
    }
}

fn push_text(out: &mut Vec<Piece>, literal: &str)
    ensures
        pieces_model(final(out)@) == pieces_model(old(out)@) + text(literal@),
{
    out.push(Piece::Text(String::from_str(literal)));
    assert(pieces_model(out@) =~= pieces_model(old(out)@) + text(literal@));
}

fn push_string(out: &mut Vec<Piece>, s: String)
    ensures
        pieces_model(final(out)@) == pieces_model(old(out)@) + text(s@),
{
    out.push(Piece::Text(s));
    assert(pieces_model(out@) =~= pieces_model(old(out)@) + text(s@));
}

impl Value {
    fn seen_in(&self, memory: &Memory, visited: &Vec<Value>) -> (res: bool)
        ensures
            res == is_visited(self@, memory@.cells, values_model(visited@)),
    {
        let mut k: usize = 0;
        while k < visited.len()
            invariant
                k <= visited.len(),
                forall|m: int|
                    0 <= m < k ==> !equal_within(
                        #[trigger] values_model(visited@)[m],
                        self@,
                        memory@.cells,
                        memory@.cells.dom().len(),
                    ),
            decreases visited.len() - k,
        {
            if visited[k].internal_equal(self, memory) {
                assert(values_model(visited@)[k as int] == visited@[k as int]@);
                return true;
            }
            assert(values_model(visited@)[k as int] == visited@[k as int]@);
            k = k + 1;
        }
        false
    }

    fn print_to(
        &self,
        memory: &Memory,
        visited: &mut Vec<Value>,
        depth: usize,
        out: &mut Vec<Piece>,
    )
        ensures
            pieces_model(final(out)@) == pieces_model(old(out)@) + print_form(
                self@,
                memory@.cells,
                values_model(old(visited)@),
                depth as nat,
            ),
            values_model(final(visited)@) == values_model(old(visited)@),
        decreases depth,
    {
        let ghost start = pieces_model(out@);
        let ghost around = values_model(visited@);
        match self {
            Value::Null => push_text(out, "Null"),
            Value::Number(bits) => {
                out.push(Piece::Number(*bits));
                assert(pieces_model(out@) =~= start + seq![PieceModel::Number(*bits)]);
            },
            Value::Bool(b) => {
                if *b {
                    push_text(out, "True")
                } else {
                    push_text(out, "False")
                }
            },
            Value::String(s) => push_string(out, s.clone()),
            Value::TypeName(name) => {
                let mut label = String::from_str("#");
                label.append(name.as_str());
                push_string(out, label)
            },
            Value::Builtin(name) => {
                let mut label = String::from_str("<builtin: ");
                label.append(name.as_str());
                label.append(">");
                push_string(out, label)
            },
            Value::Function { .. } => push_text(out, "|...| {...}"),
            Value::Array(elements) => {
                if self.seen_in(memory, visited) {
                    push_text(out, "[...]");
                } else {
                    push_text(out, "[");
                    visited.push(self.clone());
                    let ghost inner = values_model(visited@);
                    assert(inner =~= around.push(self@));
                    let mut i: usize = 0;
                    while i < elements.len()
                        invariant
                            i <= elements.len(),
                            values_model(visited@) == inner,
                            pieces_model(out@) + print_elements(
                                elements@,
                                i as int,
                                memory@.cells,
                                inner,
                                depth as nat,
                            ) == start + text("["@) + print_elements(
                                elements@,
                                0,
                                memory@.cells,
                                inner,
                                depth as nat,
                            ),
                        decreases elements.len() - i,
                    {
                        let ghost before = pieces_model(out@);
                        let ghost rest = print_elements(
                            elements@,
                            i + 1,
                            memory@.cells,
                            inner,
                            depth as nat,
                        );
                        if i > 0 {
                            push_text(out, ",");
                        }
                        let ghost comma = if i > 0 {
                            text(","@)
                        } else {
                            Seq::<PieceModel>::empty()
                        };
                        assert(pieces_model(out@) =~= before + comma);
                        match memory.lookup(elements[i]) {
                            None => {
                                push_text(out, "Null");
                                assert(pieces_model(out@) + rest =~= before + (comma + text(
                                    "Null"@,
                                ) + rest));
                            },
                            Some(element) => {
                                if depth == 0 {
                                    push_text(out, "[...]");
                                    assert(pieces_model(out@) + rest =~= before + (comma + text(
                                        "[...]"@,
                                    ) + rest));
                                } else {
                                    element.print_to(memory, visited, depth - 1, out);
                                    assert(pieces_model(out@) + rest =~= before + (comma
                                        + print_form(
                                        element@,
                                        memory@.cells,
                                        inner,
                                        (depth - 1) as nat,
                                    ) + rest));
                                }
                            },
                        }
                        i = i + 1;
                    }
                    let ghost full = visited@;
                    assert(values_model(full).len() == around.len() + 1);
                    visited.pop();
                    assert(visited@ =~= full.drop_last());
                    assert forall|m: int| 0 <= m < around.len() implies values_model(
                        visited@,
                    )[m] == around[m] by {
                        assert(values_model(full)[m] == around.push(self@)[m]);
                    }
                    assert(values_model(visited@) =~= around);
                    let ghost body = pieces_model(out@);
                    push_text(out, "]");
                    assert(print_elements(
                        elements@,
                        elements@.len() as int,
                        memory@.cells,
                        inner,
                        depth as nat,
                    ) =~= Seq::<PieceModel>::empty());
                    assert(body =~= start + text("["@) + print_elements(
                        elements@,
                        0,
                        memory@.cells,
                        inner,
                        depth as nat,
                    ));
                    assert(pieces_model(out@) =~= start + (text("["@) + print_elements(
                        elements@,
                        0,
                        memory@.cells,
                        inner,
                        depth as nat,
                    ) + text("]"@)));
                }
            },
        }
    }

    /// The print form of the value, as pieces for the host to render.
    /// `visited` holds the arrays that are being printed around the value,
    /// and is left as it was.
    pub fn to_str(&self, memory: &Memory, visited: &mut Vec<Value>) -> (res: Vec<Piece>)
        ensures
            pieces_model(res@) == print_form(
                self@,
                memory@.cells,
                values_model(old(visited)@),
                memory@.cells.dom().len(),
            ),
            values_model(final(visited)@) == values_model(old(visited)@),
    {
        let mut out: Vec<Piece> = Vec::new();
        assert(pieces_model(out@) =~= Seq::<PieceModel>::empty());
        self.print_to(memory, visited, memory.len(), &mut out);
        assert(Seq::<PieceModel>::empty() + print_form(
            self@,
            memory@.cells,
            values_model(old(visited)@),
            memory@.cells.dom().len(),
        ) =~= print_form(
            self@,
            memory@.cells,
            values_model(old(visited)@),
            memory@.cells.dom().len(),
        ));
        out
    }

    /// `as`.
    pub fn cast_to(&self, other: &Value, memory: &Memory) -> (res: Computation)
        ensures
            computation_model(res) == self@.cast_to(other@, memory@.cells),
    {
        match other {
            Value::TypeName(name) => {
                match self {
                    Value::String(v) => {
                        if is_text(name, "number") {
                            Ok(Computed::Parse { text: v.clone() })
                        } else if is_text(name, "string") {
                            Ok(Computed::Value(Value::String(v.clone())))
                        } else {
                            type_failure("Couldn't convert")
                        }
                    },
                    _ => {
                        if is_text(name, "string") {
                            let mut visited: Vec<Value> = Vec::new();
                            assert(values_model(visited@) =~= Seq::<ValueModel>::empty());
                            let pieces = self.to_str(memory, &mut visited);
                            Ok(Computed::Render { pieces })
                        } else {
                            type_failure("Couldn't convert")
                        }
                    },
                }
            },
            _ => type_failure("Casting not defined for types"),
        }
    }
}

} // verus!
