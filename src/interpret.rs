//! The evaluator: runs statements against one flat variable store.
//!
//! Numbers are IEEE-754 doubles, held as their bit patterns. Comparison,
//! equality and negation of numbers are decided here on the bits; reading a
//! number literal and the four arithmetic operations are the numeric
//! primitives that the interpreter is built with.
use vstd::prelude::*;
use crate::parse::{BinaryOp, ExprView, Expression, Statement, StmtView, UnaryOp, view_statements};

verus! {

/// A runtime value.
#[derive(Debug, PartialEq)]
pub enum Value {
    /// A double, as its IEEE-754 bit pattern.
    Number(u64),
    StringLiteral(String),
    Boolean(bool),
    Nil,
}

/// A runtime value as a mathematical value.
pub enum ValueView {
    Number(u64),
    StringLiteral(Seq<char>),
    Boolean(bool),
    Nil,
}

impl View for Value {
    type V = ValueView;

    open spec fn view(&self) -> ValueView {
        match self {
            Value::Number(n) => ValueView::Number(*n),
            Value::StringLiteral(s) => ValueView::StringLiteral(s@),
            Value::Boolean(b) => ValueView::Boolean(*b),
            Value::Nil => ValueView::Nil,
        }
    }
}

impl Clone for Value {
    fn clone(&self) -> (r: Value)
        ensures
            r == *self,
    {
        match self {
            Value::Number(n) => Value::Number(*n),
            Value::StringLiteral(s) => Value::StringLiteral(s.clone()),
            Value::Boolean(b) => Value::Boolean(*b),
            Value::Nil => Value::Nil,
        }
    }
}

pub const SIGN_BIT: u64 = 0x8000_0000_0000_0000;

pub const MAGNITUDE_BITS: u64 = 0x7fff_ffff_ffff_ffff;

pub const EXPONENT_BITS: u64 = 0x7ff0_0000_0000_0000;

pub const FRACTION_BITS: u64 = 0x000f_ffff_ffff_ffff;

/// The bit pattern of a NaN: all exponent bits set and a non-zero fraction.
pub open spec fn is_nan(x: u64) -> bool {
    x & EXPONENT_BITS == EXPONENT_BITS && x & FRACTION_BITS != 0
}

/// Where a double that is not NaN stands on the number line. The magnitude
/// bits order the non-negative doubles; both zeros stand at 0.
pub open spec fn order_key(x: u64) -> int {
    if x & SIGN_BIT == 0 {
        (x & MAGNITUDE_BITS) as int
    } else {
        -((x & MAGNITUDE_BITS) as int)
    }
}

/// `x == y` on doubles.
pub open spec fn number_eq(x: u64, y: u64) -> bool {
    !is_nan(x) && !is_nan(y) && order_key(x) == order_key(y)
}

/// `x < y` on doubles.
pub open spec fn number_lt(x: u64, y: u64) -> bool {
    !is_nan(x) && !is_nan(y) && order_key(x) < order_key(y)
}

/// `x <= y` on doubles.
pub open spec fn number_le(x: u64, y: u64) -> bool {
    !is_nan(x) && !is_nan(y) && order_key(x) <= order_key(y)
}

/// `-x` on doubles: the sign bit flipped.
pub open spec fn number_neg(x: u64) -> u64 {
    x ^ SIGN_BIT
}

fn nan(x: u64) -> (r: bool)
    ensures
        r == is_nan(x),
{
    x & EXPONENT_BITS == EXPONENT_BITS && x & FRACTION_BITS != 0
}

fn key(x: u64) -> (r: i128)
    ensures
        r == order_key(x),
{
    let m = x & MAGNITUDE_BITS;
    if x & SIGN_BIT == 0 {
        m as i128
    } else {
        -(m as i128)
    }
}

/// Structural equality: values of different kinds are never equal.
pub open spec fn values_equal(a: ValueView, b: ValueView) -> bool {
    match (a, b) {
        (ValueView::Number(x), ValueView::Number(y)) => number_eq(x, y),
        (ValueView::StringLiteral(s), ValueView::StringLiteral(t)) => s == t,
        (ValueView::Boolean(p), ValueView::Boolean(q)) => p == q,
        (ValueView::Nil, ValueView::Nil) => true,
        _ => false,
    }
}

fn equal_values(a: &Value, b: &Value) -> (r: bool)
    ensures
        r == values_equal(a@, b@),
{
    match (a, b) {
        (Value::Number(x), Value::Number(y)) => !nan(*x) && !nan(*y) && key(*x) == key(*y),
        (Value::StringLiteral(s), Value::StringLiteral(t)) => *s == *t,
        (Value::Boolean(p), Value::Boolean(q)) => *p == *q,
        (Value::Nil, Value::Nil) => true,
        _ => false,
    }
}

/// Only `false` and `nil` are falsy.
pub open spec fn truthy(v: ValueView) -> bool {
    match v {
        ValueView::Boolean(b) => b,
        ValueView::Nil => false,
        _ => true,
    }
}

pub fn is_truthy(val: &Value) -> (r: bool)
    ensures
        r == truthy(val@),
{
    match val {
        Value::Boolean(b) => *b,
        Value::Nil => false,
        _ => true,
    }
}

/// The store of variables, from name to value.
pub open spec fn entries_map(entries: Seq<(String, Value)>) -> Map<Seq<char>, ValueView>
    decreases entries.len(),
{
    if entries.len() == 0 {
        Map::empty()
    } else {
        entries_map(entries.drop_last()).insert(entries.last().0@, entries.last().1@)
    }
}

/// No name is bound twice.
pub open spec fn unique_names(entries: Seq<(String, Value)>) -> bool {
    forall|i: int, j: int|
        0 <= i < entries.len() && 0 <= j < entries.len() && i != j ==> entries[i].0@
            != entries[j].0@
}

proof fn lemma_entries_absent(entries: Seq<(String, Value)>, name: Seq<char>)
    requires
        forall|i: int| 0 <= i < entries.len() ==> entries[i].0@ != name,
    ensures
        !entries_map(entries).contains_key(name),
    decreases entries.len(),
{
    if entries.len() > 0 {
        lemma_entries_absent(entries.drop_last(), name);
    }
}

proof fn lemma_entries_index(entries: Seq<(String, Value)>, i: int)
    requires
        unique_names(entries),
        0 <= i < entries.len(),
    ensures
        entries_map(entries).contains_key(entries[i].0@),
        entries_map(entries)[entries[i].0@] == entries[i].1@,
    decreases entries.len(),
{
    if i < entries.len() - 1 {
        lemma_entries_index(entries.drop_last(), i);
    }
}

proof fn lemma_entries_update(entries: Seq<(String, Value)>, i: int, entry: (String, Value))
    requires
        unique_names(entries),
        0 <= i < entries.len(),
        entry.0@ == entries[i].0@,
    ensures
        entries_map(entries.update(i, entry)) == entries_map(entries).insert(entry.0@, entry.1@),
    decreases entries.len(),
{
    let updated = entries.update(i, entry);
    if i == entries.len() - 1 {
        assert(updated.drop_last() == entries.drop_last());
        lemma_entries_absent(entries.drop_last(), entry.0@);
        assert(entries_map(updated) =~= entries_map(entries).insert(entry.0@, entry.1@));
    } else {
        assert(updated.drop_last() == entries.drop_last().update(i, entry));
        lemma_entries_update(entries.drop_last(), i, entry);
        assert(entries_map(updated) =~= entries_map(entries).insert(entry.0@, entry.1@));
    }
}

/// The variable store: each name is bound at most once.
pub struct Environment {
    entries: Vec<(String, Value)>,
}

impl View for Environment {
    type V = Map<Seq<char>, ValueView>;

    closed spec fn view(&self) -> Map<Seq<char>, ValueView> {
        entries_map(self.entries@)
    }
}

impl Environment {
    pub closed spec fn wf(&self) -> bool {
        unique_names(self.entries@)
    }

    pub fn new() -> (r: Environment)
        ensures
            r.wf(),
            r@ == Map::<Seq<char>, ValueView>::empty(),
    {
        Environment { entries: Vec::new() }
    }

    /// The index of the binding of `name`, if there is one.
    fn find(&self, name: &String) -> (r: Option<usize>)
        requires
            self.wf(),
        ensures
            match r {
                Some(i) => i < self.entries@.len() && self.entries@[i as int].0@ == name@,
                None => !self@.contains_key(name@) && forall|j: int|
                    0 <= j < self.entries@.len() ==> self.entries@[j].0@ != name@,
            },
    {
        let mut i: usize = 0;
        while i < self.entries.len()
            invariant
                i <= self.entries@.len(),
                forall|j: int| 0 <= j < i ==> self.entries@[j].0@ != name@,
            decreases self.entries.len() - i,
        {
            if self.entries[i].0 == *name {
                return Some(i);
            }
            i += 1;
        }
        proof {
            lemma_entries_absent(self.entries@, name@);
        }
        None
    }

    pub fn contains(&self, name: &String) -> (r: bool)
        requires
            self.wf(),
        ensures
            r == self@.contains_key(name@),
    {
        match self.find(name) {
            Some(i) => {
                proof {
                    lemma_entries_index(self.entries@, i as int);
                }
                true
            },
            None => false,
        }
    }

    /// The value bound to `name`.
    pub fn get(&self, name: &String) -> (r: Option<Value>)
        requires
            self.wf(),
        ensures
            match r {
                Some(v) => self@.contains_key(name@) && self@[name@] == v@,
                None => !self@.contains_key(name@),
            },
    {
        match self.find(name) {
            Some(i) => {
                proof {
                    lemma_entries_index(self.entries@, i as int);
                }
                Some(self.entries[i].1.clone())
            },
            None => None,
        }
    }

    /// Binds `name` to `value`, replacing any earlier binding.
    pub fn define(&mut self, name: String, value: Value)
        requires
            old(self).wf(),
        ensures
            final(self).wf(),
            final(self)@ == old(self)@.insert(name@, value@),
    {
        match self.find(&name) {
            Some(i) => {
                proof {
                    lemma_entries_update(self.entries@, i as int, (name, value));
                }
                let ghost before = self.entries@;
                self.entries.set(i, (name, value));
                assert(forall|j: int|
                    0 <= j < before.len() ==> #[trigger] self.entries@[j].0@ == before[j].0@);
            },
            None => {
                let ghost before = self.entries@;
                self.entries.push((name, value));
                assert(self.entries@.drop_last() == before);
            },
        }
    }
}


/// The operations that the numeric primitives compute.
#[derive(Clone, Copy, Debug, PartialEq, Eq, Structural)]
pub enum ArithOp {
    Add,
    Subtract,
    Multiply,
    Divide,
}

/// Why an evaluation failed.
#[derive(Clone, Copy, Debug, PartialEq, Eq, Structural)]
pub enum RuntimeError {
    /// `-` on a value that is not a number.
    NegationOnNonNumber,
    /// `<`, `<=`, `>` or `>=` with an operand that is not a number.
    ComparisonWithNonNumber,
    /// `+`, `-`, `*` or `/` with an operand that is not a number.
    ArithmeticWithNonNumber,
    /// A read of, or an assignment to, a name that was never declared.
    UndefinedVariable,
}

/// The variable store as a mathematical map.
pub type Env = Map<Seq<char>, ValueView>;

/// How number literals are read: their text to the bits of a double.
pub type LiteralFn = spec_fn(Seq<char>) -> u64;

/// How the four arithmetic operations act on the bits of doubles.
pub type ArithFn = spec_fn(ArithOp, u64, u64) -> u64;

/// The value of a unary operator applied to `v`.
pub open spec fn unary_value(op: UnaryOp, v: ValueView) -> Result<ValueView, RuntimeError> {
    match op {
        UnaryOp::Not => Ok(ValueView::Boolean(!truthy(v))),
        UnaryOp::Negate => match v {
            ValueView::Number(x) => Ok(ValueView::Number(number_neg(x))),
            _ => Err(RuntimeError::NegationOnNonNumber),
        },
    }
}

/// The arithmetic operation of `op`, if it is one.
pub open spec fn arith_op_of(op: BinaryOp) -> Option<ArithOp> {
    match op {
        BinaryOp::Add => Some(ArithOp::Add),
        BinaryOp::Subtract => Some(ArithOp::Subtract),
        BinaryOp::Multiply => Some(ArithOp::Multiply),
        BinaryOp::Divide => Some(ArithOp::Divide),
        _ => None,
    }
}

/// The comparison `op` of two doubles, if `op` is a comparison.
pub open spec fn compare_numbers(op: BinaryOp, x: u64, y: u64) -> bool {
    match op {
        BinaryOp::Less => number_lt(x, y),
        BinaryOp::LessEqual => number_le(x, y),
        BinaryOp::Greater => number_lt(y, x),
        _ => number_le(y, x),
    }
}

/// `<`, `<=`, `>` or `>=`.
pub open spec fn is_comparison(op: BinaryOp) -> bool {
    op == BinaryOp::Less || op == BinaryOp::LessEqual || op == BinaryOp::Greater || op
        == BinaryOp::GreaterEqual
}

/// The value of a binary operator applied to `l` and `r`: equality on any two
/// values, comparison and arithmetic on numbers only.
pub open spec fn binary_value(arith: ArithFn, op: BinaryOp, l: ValueView, r: ValueView) -> Result<
    ValueView,
    RuntimeError,
> {
    if op == BinaryOp::Equal {
        Ok(ValueView::Boolean(values_equal(l, r)))
    } else if op == BinaryOp::NotEqual {
        Ok(ValueView::Boolean(!values_equal(l, r)))
    } else if is_comparison(op) {
        match (l, r) {
            (ValueView::Number(x), ValueView::Number(y)) => Ok(
                ValueView::Boolean(compare_numbers(op, x, y)),
            ),
            _ => Err(RuntimeError::ComparisonWithNonNumber),
        }
    } else {
        match (l, r) {
            (ValueView::Number(x), ValueView::Number(y)) => Ok(
                ValueView::Number(arith(arith_op_of(op).unwrap(), x, y)),
            ),
            _ => Err(RuntimeError::ArithmeticWithNonNumber),
        }
    }
}

/// The value of `e` in `env`, and the store after it: operands are evaluated
/// left to right, and the first failure ends the evaluation.
pub open spec fn eval(lit: LiteralFn, arith: ArithFn, env: Env, e: ExprView) -> (
    Env,
    Result<ValueView, RuntimeError>,
)
    decreases e,
{
    match e {
        ExprView::Number(text) => (env, Ok(ValueView::Number(lit(text)))),
        ExprView::Literal(s) => (env, Ok(ValueView::StringLiteral(s))),
        ExprView::True => (env, Ok(ValueView::Boolean(true))),
        ExprView::False => (env, Ok(ValueView::Boolean(false))),
        ExprView::Nil => (env, Ok(ValueView::Nil)),
        ExprView::Unary(op, operand) => {
            let (env1, v) = eval(lit, arith, env, *operand);
            match v {
                Err(x) => (env1, Err(x)),
                Ok(v) => (env1, unary_value(op, v)),
            }
        },
        ExprView::Binary(left, op, right) => {
            let (env1, l) = eval(lit, arith, env, *left);
            match l {
                Err(x) => (env1, Err(x)),
                Ok(l) => {
                    let (env2, r) = eval(lit, arith, env1, *right);
                    match r {
                        Err(x) => (env2, Err(x)),
                        Ok(r) => (env2, binary_value(arith, op, l, r)),
                    }
                },
            }
        },
        ExprView::Grouping(inner) => eval(lit, arith, env, *inner),
        ExprView::Variable(name) => if env.contains_key(name) {
            (env, Ok(env[name]))
        } else {
            (env, Err(RuntimeError::UndefinedVariable))
        },
        ExprView::Assign(name, value) => if env.contains_key(name) {
            let (env1, v) = eval(lit, arith, env, *value);
            match v {
                Err(x) => (env1, Err(x)),
                Ok(v) => (env1.insert(name, v), Ok(v)),
            }
        } else {
            (env, Err(RuntimeError::UndefinedVariable))
        },
    }
}

/// What running a statement does: the store after it, the values it
/// printed, and whether it failed.
pub type Effect = (Env, Seq<ValueView>, Result<(), RuntimeError>);

pub open spec fn execute_spec(lit: LiteralFn, arith: ArithFn, env: Env, s: StmtView) -> Effect {
    match s {
        StmtView::ExprStmt(e) => {
            let (env1, v) = eval(lit, arith, env, e);
            match v {
                Err(x) => (env1, seq![], Err(x)),
                Ok(_) => (env1, seq![], Ok(())),
            }
        },
        StmtView::PrintStmt(e) => {
            let (env1, v) = eval(lit, arith, env, e);
            match v {
                Err(x) => (env1, seq![], Err(x)),
                Ok(v) => (env1, seq![v], Ok(())),
            }
        },
        StmtView::VarDecl(name, init) => match init {
            None => (env.insert(name, ValueView::Nil), seq![], Ok(())),
            Some(e) => {
                let (env1, v) = eval(lit, arith, env, e);
                match v {
                    Err(x) => (env1, seq![], Err(x)),
                    Ok(v) => (env1.insert(name, v), seq![], Ok(())),
                }
            },
        },
    }
}

/// Runs statements in order, up to the first failure; the effects of the
/// statements before it remain.
pub open spec fn run_program(lit: LiteralFn, arith: ArithFn, env: Env, p: Seq<StmtView>) -> Effect
    decreases p.len(),
{
    if p.len() == 0 {
        (env, seq![], Ok(()))
    } else {
        let (env1, out1, r) = execute_spec(lit, arith, env, p[0]);
        match r {
            Err(x) => (env1, out1, Err(x)),
            Ok(()) => {
                let (env2, out2, r2) = run_program(lit, arith, env1, p.drop_first());
                (env2, out1 + out2, r2)
            },
        }
    }
}

/// Whether two values are of the same kind.
pub open spec fn same_kind(a: ValueView, b: ValueView) -> bool {
    match (a, b) {
        (ValueView::Number(_), ValueView::Number(_)) => true,
        (ValueView::StringLiteral(_), ValueView::StringLiteral(_)) => true,
        (ValueView::Boolean(_), ValueView::Boolean(_)) => true,
        (ValueView::Nil, ValueView::Nil) => true,
        _ => false,
    }
}

/// Values of different kinds are never equal: `==` gives `false` and `!=`
/// gives `true`, and neither is an error.
pub proof fn lemma_cross_kind_equality(arith: ArithFn, a: ValueView, b: ValueView)
    requires
        !same_kind(a, b),
    ensures
        binary_value(arith, BinaryOp::Equal, a, b) == Ok::<ValueView, RuntimeError>(
            ValueView::Boolean(false),
        ),
        binary_value(arith, BinaryOp::NotEqual, a, b) == Ok::<ValueView, RuntimeError>(
            ValueView::Boolean(true),
        ),
{
}

/// `!v` is `true` exactly when `v` is `nil` or `false`; in particular `!` of
/// any number, zero included, is `false`.
pub proof fn lemma_not_truthiness(v: ValueView)
    ensures
        unary_value(UnaryOp::Not, v) == Ok::<ValueView, RuntimeError>(
            ValueView::Boolean(v == ValueView::Nil || v == ValueView::Boolean(false)),
        ),
        v is Number ==> unary_value(UnaryOp::Not, v) == Ok::<ValueView, RuntimeError>(
            ValueView::Boolean(false),
        ),
{
}

/// Assignment never declares: assigning to a name that the store does not
/// hold fails with `UndefinedVariable` and leaves the store as it was.
pub proof fn lemma_assign_undeclared(
    lit: LiteralFn,
    arith: ArithFn,
    env: Env,
    name: Seq<char>,
    value: ExprView,
)
    requires
        !env.contains_key(name),
    ensures
        eval(lit, arith, env, ExprView::Assign(name, Box::new(value))) == (env, Err::<
            ValueView,
            RuntimeError,
        >(RuntimeError::UndefinedVariable)),
        run_program(
            lit,
            arith,
            env,
            seq![StmtView::ExprStmt(ExprView::Assign(name, Box::new(value)))],
        ) == (env, Seq::<ValueView>::empty(), Err::<(), RuntimeError>(
            RuntimeError::UndefinedVariable,
        )),
{
}

/// Declaring a variable again replaces its value instead of failing: when
/// both initializers evaluate without error, `var name = first; var name =
/// second; print name;` succeeds, prints the value of `second`, and leaves
/// `name` bound to it.
pub proof fn lemma_redeclaration(
    lit: LiteralFn,
    arith: ArithFn,
    env: Env,
    name: Seq<char>,
    first: ExprView,
    second: ExprView,
)
    requires
        eval(lit, arith, env, first).1 is Ok,
        ({
            let (env1, v1) = eval(lit, arith, env, first);
            eval(lit, arith, env1.insert(name, v1->Ok_0), second).1 is Ok
        }),
    ensures
        ({
            let (env1, v1) = eval(lit, arith, env, first);
            let (env2, v2) = eval(lit, arith, env1.insert(name, v1->Ok_0), second);
            let program = seq![
                StmtView::VarDecl(name, Some(first)),
                StmtView::VarDecl(name, Some(second)),
                StmtView::PrintStmt(ExprView::Variable(name)),
            ];
            run_program(lit, arith, env, program) == (
                env2.insert(name, v2->Ok_0),
                seq![v2->Ok_0],
                Ok::<(), RuntimeError>(()),
            )
        }),
{
    let (env1, v1) = eval(lit, arith, env, first);
    let (env2, v2) = eval(lit, arith, env1.insert(name, v1->Ok_0), second);
    let env3 = env2.insert(name, v2->Ok_0);
    let d1 = StmtView::VarDecl(name, Some(first));
    let d2 = StmtView::VarDecl(name, Some(second));
    let pr = StmtView::PrintStmt(ExprView::Variable(name));
    let program = seq![d1, d2, pr];
    let empty = Seq::<ValueView>::empty();
    let ok = Ok::<(), RuntimeError>(());
    assert(program[0] == d1);
    assert(program.drop_first() == seq![d2, pr]);
    assert(seq![d2, pr][0] == d2);
    assert(seq![d2, pr].drop_first() == seq![pr]);
    assert(seq![pr][0] == pr);
    assert(seq![pr].drop_first() == Seq::<StmtView>::empty());
    assert(execute_spec(lit, arith, env, d1) == (env1.insert(name, v1->Ok_0), empty, ok));
    assert(execute_spec(lit, arith, env1.insert(name, v1->Ok_0), d2) == (env3, empty, ok));
    assert(execute_spec(lit, arith, env3, pr) == (env3, seq![v2->Ok_0], ok));
    assert(run_program(lit, arith, env3, Seq::<StmtView>::empty()) == (env3, empty, ok));
    assert(seq![v2->Ok_0] + empty == seq![v2->Ok_0]);
    assert(run_program(lit, arith, env3, seq![pr]) == (env3, seq![v2->Ok_0], ok));
    assert(empty + seq![v2->Ok_0] == seq![v2->Ok_0]);
    assert(run_program(lit, arith, env1.insert(name, v1->Ok_0), seq![d2, pr]) == (
        env3,
        seq![v2->Ok_0],
        ok,
    ));
}

/// The values of `s`, as mathematical values.
pub open spec fn view_values(s: Seq<Value>) -> Seq<ValueView> {
    s.map_values(|v: Value| v@)
}

pub open spec fn value_outcome(r: Result<Value, RuntimeError>) -> Result<ValueView, RuntimeError> {
    match r {
        Ok(v) => Ok(v@),
        Err(x) => Err(x),
    }
}

/// Numeric primitives that can be called on any input and give one result for each.
pub open spec fn sound_numerics<L: Fn(String) -> u64, A: Fn(ArithOp, u64, u64) -> u64>(
    literal: L,
    arith: A,
) -> bool {
    &&& forall|s: String| #[trigger] literal.requires((s,))
    &&& forall|s: String, t: String, x: u64, y: u64|
        #![trigger literal.ensures((s,), x), literal.ensures((t,), y)]
        s@ == t@ && literal.ensures((s,), x) && literal.ensures((t,), y) ==> x == y
    &&& forall|op: ArithOp, a: u64, b: u64| #[trigger] arith.requires((op, a, b))
    &&& forall|op: ArithOp, a: u64, b: u64, x: u64, y: u64|
        #![trigger arith.ensures((op, a, b), x), arith.ensures((op, a, b), y)]
        arith.ensures((op, a, b), x) && arith.ensures((op, a, b), y) ==> x == y
}

/// `literal` may read `x` from `text`.
pub open spec fn reads_as<L: Fn(String) -> u64>(literal: L, text: Seq<char>, x: u64) -> bool {
    exists|s: String| s@ == text && #[trigger] literal.ensures((s,), x)
}

/// The number that `literal` reads from each text.
pub open spec fn literal_fn_of<L: Fn(String) -> u64>(literal: L) -> LiteralFn {
    |text: Seq<char>| choose|x: u64| #[trigger] reads_as(literal, text, x)
}

/// The bits that `arith` computes for each operation.
pub open spec fn arith_fn_of<A: Fn(ArithOp, u64, u64) -> u64>(arith: A) -> ArithFn {
    |op: ArithOp, a: u64, b: u64| choose|x: u64| #[trigger] arith.ensures((op, a, b), x)
}

/// The evaluator, with its variable store and its numeric primitives.
pub struct Interpreter<L, A> {
    environment: Environment,
    literal: L,
    arith: A,
}

impl<L: Fn(String) -> u64, A: Fn(ArithOp, u64, u64) -> u64> Interpreter<L, A> {
    /// The number that `literal` reads from each text.
    pub closed spec fn literal_fn(&self) -> LiteralFn {
        literal_fn_of(self.literal)
    }

    /// The bits that `arith` computes for each operation.
    pub closed spec fn arith_fn(&self) -> ArithFn {
        arith_fn_of(self.arith)
    }

    /// The variable store.
    pub closed spec fn env(&self) -> Env {
        self.environment@
    }

    pub closed spec fn wf(&self) -> bool {
        &&& self.environment.wf()
        &&& sound_numerics(self.literal, self.arith)
    }

    /// `self` is `old` with only its variable store changed.
    pub closed spec fn same_numerics(&self, old: &Self) -> bool {
        &&& self.wf()
        &&& self.literal == old.literal
        &&& self.arith == old.arith
    }

    /// Leaving an interpreter as it is keeps its numerics.
    pub proof fn lemma_same_numerics_refl(&self)
        requires
            self.wf(),
        ensures
            self.same_numerics(self),
    {
    }

    /// An interpreter with an empty store, that reads number literals with
    /// `literal` and does arithmetic with `arith`.
    pub fn new(literal: L, arith: A) -> (r: Self)
        requires
            sound_numerics(literal, arith),
        ensures
            r.wf(),
            r.env() == Map::<Seq<char>, ValueView>::empty(),
    {
        Interpreter { environment: Environment::new(), literal, arith }
    }

    /// Runs `program`; the values that print statements print are pushed onto `out`.
    pub fn interpret(&mut self, program: Vec<Statement>, out: &mut Vec<Value>) -> (r: Result<
        (),
        RuntimeError,
    >)
        requires
            old(self).wf(),
        ensures
            final(self).wf(),
            final(self).same_numerics(old(self)),
            ({
                let (env, printed, res) = run_program(
                    old(self).literal_fn(),
                    old(self).arith_fn(),
                    old(self).env(),
                    view_statements(program@),
                );
                &&& final(self).env() == env
                &&& view_values(final(out)@) == view_values(old(out)@) + printed
                &&& r == res
            }),
    {
        let ghost lit = self.literal_fn();
        let ghost arith = self.arith_fn();
        let ghost p = view_statements(program@);
        let mut i: usize = 0;
        assert(p.skip(0) == p);
        while i < program.len()
            invariant
                self.same_numerics(old(self)),
                lit == self.literal_fn(),
                arith == self.arith_fn(),
                p == view_statements(program@),
                i <= program@.len(),
                ({
                    let (env, printed, res) = run_program(lit, arith, old(self).env(), p);
                    let (env_i, printed_i, res_i) = run_program(lit, arith, self.env(), p.skip(i as int));
                    &&& env == env_i
                    &&& res == res_i
                    &&& view_values(old(out)@) + printed == view_values(out@) + printed_i
                }),
            decreases program.len() - i,
        {
            let ghost out0 = view_values(out@);
            let ghost env0 = self.env();
            let result = self.execute(&program[i], out);
            proof {
                assert(p.skip(i as int)[0] == program@[i as int]@);
                assert(p.skip(i as int).drop_first() == p.skip(i + 1));
                let (e1, o1, r1) = execute_spec(lit, arith, env0, program@[i as int]@);
                let (e2, o2, r2) = run_program(lit, arith, e1, p.skip(i + 1));
                assert(out0 + (o1 + o2) == (out0 + o1) + o2);
                if r1 is Err {
                    assert(view_values(out@) + seq![] == view_values(out@));
                }
            }
            match result {
                Ok(()) => {},
                Err(x) => return Err(x),
            }
            i += 1;
        }
        proof {
            assert(view_values(out@) + seq![] == view_values(out@));
        }
        Ok(())
    }

    fn execute(&mut self, stmt: &Statement, out: &mut Vec<Value>) -> (r: Result<(), RuntimeError>)
        requires
            old(self).wf(),
        ensures
            final(self).same_numerics(old(self)),
            ({
                let (env, printed, res) = execute_spec(
                    old(self).literal_fn(),
                    old(self).arith_fn(),
                    old(self).env(),
                    stmt@,
                );
                &&& final(self).env() == env
                &&& view_values(final(out)@) == view_values(old(out)@) + printed
                &&& r == res
            }),
    {
        match stmt {
            Statement::ExprStmt(e) => {
                match self.evaluate(e) {
                    Ok(_) => {},
                    Err(x) => {
                        assert(view_values(out@) + seq![] == view_values(out@));
                        return Err(x);
                    },
                }
            },
            Statement::PrintStmt(e) => {
                let val = match self.evaluate(e) {
                    Ok(v) => v,
                    Err(x) => {
                        assert(view_values(out@) + seq![] == view_values(out@));
                        return Err(x);
                    },
                };
                let ghost out0 = view_values(out@);
                out.push(val);
                assert(view_values(out@) == out0 + seq![val@]);
                return Ok(());
            },
            Statement::VarDecl(var_name, initializer) => {
                let var_val = match initializer {
                    Some(e) => match self.evaluate(e) {
                        Ok(v) => v,
                        Err(x) => {
                            assert(view_values(out@) + seq![] == view_values(out@));
                            return Err(x);
                        },
                    },
                    None => Value::Nil,
                };
                self.environment.define(var_name.clone(), var_val);
            },
        }
        assert(view_values(out@) + seq![] == view_values(out@));
        Ok(())
    }

    fn evaluate(&mut self, expr: &Expression) -> (r: Result<Value, RuntimeError>)
        requires
            old(self).wf(),
        ensures
            final(self).same_numerics(old(self)),
            eval(old(self).literal_fn(), old(self).arith_fn(), old(self).env(), expr@) == (
                final(self).env(),
                value_outcome(r),
            ),
        decreases expr,
    {
        match expr {
            Expression::Number(text) => Ok(Value::Number(self.number(text))),
            Expression::Literal(s) => Ok(Value::StringLiteral(s.clone())),
            Expression::True => Ok(Value::Boolean(true)),
            Expression::False => Ok(Value::Boolean(false)),
            Expression::Nil => Ok(Value::Nil),
            Expression::Unary(op, operand) => {
                let v = match self.evaluate(operand) {
                    Ok(v) => v,
                    Err(x) => return Err(x),
                };
                evaluate_unary(*op, v)
            },
            Expression::Binary(left, op, right) => {
                let l = match self.evaluate(left) {
                    Ok(v) => v,
                    Err(x) => return Err(x),
                };
                let r = match self.evaluate(right) {
                    Ok(v) => v,
                    Err(x) => return Err(x),
                };
                self.evaluate_binary(*op, l, r)
            },
            Expression::Grouping(inner) => self.evaluate(inner),
            Expression::Variable(var_name) => self.var_lookup(var_name),
            Expression::Assign(var_name, value) => {
                if !self.environment.contains(var_name) {
                    return Err(RuntimeError::UndefinedVariable);
                }
                let var_val = match self.evaluate(value) {
                    Ok(v) => v,
                    Err(x) => return Err(x),
                };
                self.environment.define(var_name.clone(), var_val.clone());
                Ok(var_val)
            },
        }
    }

    /// The bits of the double that a number literal denotes.
    fn number(&self, text: &String) -> (r: u64)
        requires
            self.wf(),
        ensures
            r == (self.literal_fn())(text@),
    {
        let arg = text.clone();
        let ghost g = arg;
        let r = (self.literal)(arg);
        proof {
            assert(self.literal.ensures((g,), r));
            assert(reads_as(self.literal, text@, r));
            let c = (self.literal_fn())(text@);
            assert(reads_as(self.literal, text@, c));
        }
        r
    }

    fn var_lookup(&self, var_name: &String) -> (r: Result<Value, RuntimeError>)
        requires
            self.environment.wf(),
        ensures
            r is Ok <==> self.env().contains_key(var_name@),
            r is Ok ==> r->Ok_0@ == self.env()[var_name@],
            r is Err ==> r == Err::<Value, RuntimeError>(RuntimeError::UndefinedVariable),
    {
        match self.environment.get(var_name) {
            Some(v) => Ok(v),
            None => Err(RuntimeError::UndefinedVariable),
        }
    }

    fn evaluate_binary(&self, op: BinaryOp, l: Value, r: Value) -> (res: Result<Value, RuntimeError>)
        requires
            self.wf(),
        ensures
            value_outcome(res) == binary_value(self.arith_fn(), op, l@, r@),
    {
        match op {
            BinaryOp::Equal => Ok(Value::Boolean(equal_values(&l, &r))),
            BinaryOp::NotEqual => Ok(Value::Boolean(!equal_values(&l, &r))),
            BinaryOp::Less | BinaryOp::LessEqual | BinaryOp::Greater | BinaryOp::GreaterEqual => {
                number_comp(op, l, r)
            },
            BinaryOp::Add => self.arith_op(ArithOp::Add, l, r),
            BinaryOp::Subtract => self.arith_op(ArithOp::Subtract, l, r),
            BinaryOp::Multiply => self.arith_op(ArithOp::Multiply, l, r),
            BinaryOp::Divide => self.arith_op(ArithOp::Divide, l, r),
        }
    }

    fn arith_op(&self, op: ArithOp, val_l: Value, val_r: Value) -> (r: Result<Value, RuntimeError>)
        requires
            self.wf(),
        ensures
            r == match (val_l, val_r) {
                (Value::Number(x), Value::Number(y)) => Ok(Value::Number((self.arith_fn())(op, x, y))),
                _ => Err(RuntimeError::ArithmeticWithNonNumber),
            },
    {
        if let Value::Number(n_l) = val_l {
            if let Value::Number(n_r) = val_r {
                let bits = (self.arith)(op, n_l, n_r);
                proof {
                    let c = (self.arith_fn())(op, n_l, n_r);
                    assert(self.arith.ensures((op, n_l, n_r), c));
                }
                return Ok(Value::Number(bits));
            }
        }
        Err(RuntimeError::ArithmeticWithNonNumber)
    }
}

pub fn evaluate_unary(op: UnaryOp, val: Value) -> (r: Result<Value, RuntimeError>)
    ensures
        value_outcome(r) == unary_value(op, val@),
{
    match op {
        UnaryOp::Not => Ok(Value::Boolean(!is_truthy(&val))),
        UnaryOp::Negate => match val {
            Value::Number(n) => Ok(Value::Number(n ^ SIGN_BIT)),
            _ => Err(RuntimeError::NegationOnNonNumber),
        },
    }
}

/// A comparison of two numbers.
fn number_comp(op: BinaryOp, val_l: Value, val_r: Value) -> (r: Result<Value, RuntimeError>)
    requires
        is_comparison(op),
    ensures
        value_outcome(r) == match (val_l@, val_r@) {
            (ValueView::Number(x), ValueView::Number(y)) => Ok(
                ValueView::Boolean(compare_numbers(op, x, y)),
            ),
            _ => Err(RuntimeError::ComparisonWithNonNumber),
        },
{
    if let Value::Number(x) = val_l {
        if let Value::Number(y) = val_r {
            let ordered = !nan(x) && !nan(y);
            let (kx, ky) = (key(x), key(y));
            let b = match op {
                BinaryOp::Less => ordered && kx < ky,
                BinaryOp::LessEqual => ordered && kx <= ky,
                BinaryOp::Greater => ordered && ky < kx,
                _ => ordered && ky <= kx,
            };
            return Ok(Value::Boolean(b));
        }
    }
    Err(RuntimeError::ComparisonWithNonNumber)
}

} // verus!
