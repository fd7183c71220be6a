//! Straight-line data flow graphs in single-assignment form.
//!
//! A graph is a list of values. Each value is either an input parameter or
//! the result of one operation on other values, and is named by its position.
//! The graph knows nothing of the term language it is later lowered into, so
//! it can be built and checked on its own.
//!
//! Dominance is that of straight-line code: a value dominates another if it
//! comes first and the other one reads it. [`Ssa::validate`] rules out uses
//! before definitions and operands that do not exist.

use crate::text::{decimal, push_decimal};
use vstd::prelude::*;

verus! {

/// A register of the graph: the position of its definition.
#[derive(Debug, Clone, Copy, PartialEq, Eq, Hash, Structural)]
pub struct Value(pub u32);

/// Operations that produce a value.
#[derive(Debug, PartialEq, Eq, Structural)]
pub enum Op {
    Const(i64),
    Add(Value, Value),
    Mul(Value, Value),
    Neg(Value),
}

/// Reasons for which a graph is rejected, or a value cannot be computed.
#[derive(Debug, Clone, PartialEq, Eq, Structural)]
pub enum SsaError {
    /// An operand references a value defined later, or the value itself.
    UseBeforeDef { use_idx: u32, def_idx: u32 },
    /// An operand references a value that does not exist.
    UnknownValue(u32),
}

/// A straight-line data flow graph.
///
/// Its view is the list of definitions, `None` standing for a parameter.
#[derive(Debug, PartialEq, Eq)]
pub struct Ssa {
    defs: Vec<Option<Op>>,
    params: Vec<Value>,
}

/// The operands that an operation reads, in order.
pub open spec fn operands_of(op: Op) -> Seq<Value> {
    match op {
        Op::Const(_) => Seq::empty(),
        Op::Add(a, b) => seq![a, b],
        Op::Mul(a, b) => seq![a, b],
        Op::Neg(a) => seq![a],
    }
}

/// The parameters of a graph in the order of their declaration.
pub open spec fn param_ids(defs: Seq<Option<Op>>) -> Seq<Value>
    decreases defs.len(),
{
    if defs.len() == 0 {
        Seq::empty()
    } else {
        let earlier = param_ids(defs.drop_last());
        if defs.last() is None {
            earlier.push(Value((defs.len() - 1) as u32))
        } else {
            earlier
        }
    }
}

/// The number of parameters.
pub open spec fn param_count(defs: Seq<Option<Op>>) -> nat {
    param_ids(defs).len()
}

/// How many parameters were declared before position `i`.
pub open spec fn param_ordinal(defs: Seq<Option<Op>>, i: int) -> nat {
    param_ids(defs.take(i)).len()
}

/// The operation that defines `v`: none for a parameter or an unknown value.
pub open spec fn op_at(defs: Seq<Option<Op>>, v: Value) -> Option<Op> {
    if v.0 < defs.len() {
        defs[v.0 as int]
    } else {
        None
    }
}

/// True when the definition `d` reads `v`.
pub open spec fn reads(d: Option<Op>, v: Value) -> bool {
    d is Some && operands_of(d->Some_0).contains(v)
}

/// The values whose definitions read `v`, in order of position.
pub open spec fn users(defs: Seq<Option<Op>>, v: Value) -> Seq<Value>
    decreases defs.len(),
{
    if defs.len() == 0 {
        Seq::empty()
    } else {
        let earlier = users(defs.drop_last(), v);
        if reads(defs.last(), v) {
            earlier.push(Value((defs.len() - 1) as u32))
        } else {
            earlier
        }
    }
}

/// What is wrong with operand `w` of the definition at `idx`, if anything.
pub open spec fn operand_fault(len: nat, idx: u32, w: Value) -> Option<SsaError> {
    if w.0 >= len {
        Some(SsaError::UnknownValue(w.0))
    } else if w.0 >= idx {
        Some(SsaError::UseBeforeDef { use_idx: idx, def_idx: w.0 })
    } else {
        None
    }
}

/// The first fault among the operands from the `k`-th on.
pub open spec fn operands_fault(len: nat, idx: u32, ws: Seq<Value>, k: int) -> Option<SsaError>
    decreases ws.len() - k,
{
    if k < 0 || k >= ws.len() {
        None
    } else if operand_fault(len, idx, ws[k]) is Some {
        operand_fault(len, idx, ws[k])
    } else {
        operands_fault(len, idx, ws, k + 1)
    }
}

/// The first fault of the graph among the definitions from the `i`-th on.
pub open spec fn graph_fault(defs: Seq<Option<Op>>, i: int) -> Option<SsaError>
    decreases defs.len() - i,
{
    if i < 0 || i >= defs.len() {
        None
    } else {
        let here = match defs[i] {
            Some(op) => operands_fault(defs.len(), i as u32, operands_of(op), 0),
            None => None,
        };
        if here is Some {
            here
        } else {
            graph_fault(defs, i + 1)
        }
    }
}

/// Every operand is defined strictly before the definition that reads it.
pub open spec fn valid(defs: Seq<Option<Op>>) -> bool {
    forall|i: int, w: Value|
        0 <= i < defs.len() && #[trigger] reads(defs[i], w) ==> w.0 < i
}

/// The value of a parameter or of an unknown value: the argument at the
/// parameter's ordinal.
pub open spec fn argument(defs: Seq<Option<Op>>, v: Value, params: Seq<i64>) -> Result<
    i64,
    SsaError,
> {
    if v.0 < defs.len() && param_ordinal(defs, v.0 as int) < params.len() {
        Ok(params[param_ordinal(defs, v.0 as int) as int])
    } else {
        Err(SsaError::UnknownValue(v.0))
    }
}

/// The machine integer equal to `i`, if there is one.
pub open spec fn machine_int(i: int) -> Option<Result<i64, SsaError>> {
    if i64::MIN <= i <= i64::MAX {
        Some(Ok(i as i64))
    } else {
        None
    }
}

/// The outcome of computing `v` with at most `fuel` nested operations: none
/// if that is not enough or if a result leaves the range of `i64`.
///
/// The left operand is computed first, and the first error is the outcome.
pub open spec fn eval(
    defs: Seq<Option<Op>>,
    v: Value,
    params: Seq<i64>,
    fuel: nat,
) -> Option<Result<i64, SsaError>>
    decreases fuel,
{
    if fuel == 0 {
        None
    } else {
        match op_at(defs, v) {
            None => Some(argument(defs, v, params)),
            Some(Op::Const(c)) => Some(Ok(c)),
            Some(Op::Add(a, b)) => match eval(defs, a, params, (fuel - 1) as nat) {
                Some(Ok(x)) => match eval(defs, b, params, (fuel - 1) as nat) {
                    Some(Ok(y)) => machine_int(x + y),
                    other => other,
                },
                other => other,
            },
            Some(Op::Mul(a, b)) => match eval(defs, a, params, (fuel - 1) as nat) {
                Some(Ok(x)) => match eval(defs, b, params, (fuel - 1) as nat) {
                    Some(Ok(y)) => machine_int(x * y),
                    other => other,
                },
                other => other,
            },
            Some(Op::Neg(a)) => match eval(defs, a, params, (fuel - 1) as nat) {
                Some(Ok(x)) => machine_int(-x),
                other => other,
            },
        }
    }
}

/// Computing `v` comes to an end with the outcome `r`.
pub open spec fn evaluates_to(
    defs: Seq<Option<Op>>,
    v: Value,
    params: Seq<i64>,
    r: Result<i64, SsaError>,
) -> bool {
    exists|fuel: nat| #[trigger] eval(defs, v, params, fuel) == Some(r)
}

/// Computing `v` comes to an end: no cycle is entered and no result leaves
/// the range of `i64`.
pub open spec fn evaluates(defs: Seq<Option<Op>>, v: Value, params: Seq<i64>) -> bool {
    exists|fuel: nat| (#[trigger] eval(defs, v, params, fuel)) is Some
}

/// The integer that `v` stands for when the parameter at position `i` stands
/// for `env(i)`. Only meant for graphs without uses before definitions.
pub open spec fn meaning(defs: Seq<Option<Op>>, v: Value, env: spec_fn(u32) -> int) -> int
    decreases v.0,
{
    match op_at(defs, v) {
        None => env(v.0),
        Some(Op::Const(c)) => c as int,
        Some(Op::Add(a, b)) => if a.0 < v.0 && b.0 < v.0 {
            meaning(defs, a, env) + meaning(defs, b, env)
        } else {
            0
        },
        Some(Op::Mul(a, b)) => if a.0 < v.0 && b.0 < v.0 {
            meaning(defs, a, env) * meaning(defs, b, env)
        } else {
            0
        },
        Some(Op::Neg(a)) => if a.0 < v.0 {
            -meaning(defs, a, env)
        } else {
            0
        },
    }
}

/// The assignment of parameters that the arguments `params` give.
pub open spec fn arguments_env(defs: Seq<Option<Op>>, params: Seq<i64>) -> spec_fn(u32) -> int {
    |i: u32|
        {
            let ordinal = param_ordinal(defs, i as int);
            if i < defs.len() && ordinal < params.len() {
                params[ordinal as int] as int
            } else {
                0
            }
        }
}

impl Clone for Op {
    fn clone(&self) -> (res: Self)
        ensures
            res == *self,
    {
        match self {
            Op::Const(c) => Op::Const(*c),
            Op::Add(a, b) => Op::Add(*a, *b),
            Op::Mul(a, b) => Op::Mul(*a, *b),
            Op::Neg(a) => Op::Neg(*a),
        }
    }
}

impl Op {
    /// The operands that the operation reads, in order.
    pub fn operands(&self) -> (res: Vec<Value>)
        ensures
            res@ == operands_of(*self),
    {
        let mut out: Vec<Value> = Vec::new();
        match self {
            Op::Const(_) => {},
            Op::Add(a, b) => {
                out.push(*a);
                out.push(*b);
            },
            Op::Mul(a, b) => {
                out.push(*a);
                out.push(*b);
            },
            Op::Neg(a) => {
                out.push(*a);
            },
        }
        assert(out@ =~= operands_of(*self));
        out
    }

    /// True when `v` is among the operands.
    fn reads_value(&self, v: Value) -> (res: bool)
        ensures
            res == operands_of(*self).contains(v),
    {
        let ws: Vec<Value> = self.operands();
        let mut k: usize = 0;
        while k < ws.len()
            invariant
                k <= ws@.len(),
                ws@ == operands_of(*self),
                forall|j: int| 0 <= j < k ==> ws@[j] != v,
            decreases ws@.len() - k,
        {
            if ws[k] == v {
                assert(ws@[k as int] == v);
                return true;
            }
            k += 1;
        }
        false
    }
}

impl SsaError {
    /// The message of the error.
    pub open spec fn message(self) -> Seq<char> {
        match self {
            SsaError::UseBeforeDef { use_idx, def_idx } => "use-before-def: value %"@ + decimal(
                use_idx as nat,
            ) + " uses def %"@ + decimal(def_idx as nat),
            SsaError::UnknownValue(v) => "unknown value %"@ + decimal(v as nat),
        }
    }

    /// The message of the error, for people to read.
    pub fn to_string(&self) -> (res: String)
        ensures
            res@ == self.message(),
    {
        let mut out = String::new();
        match self {
            SsaError::UseBeforeDef { use_idx, def_idx } => {
                out.append("use-before-def: value %");
                push_decimal(&mut out, *use_idx as u128);
                out.append(" uses def %");
                push_decimal(&mut out, *def_idx as u128);
            },
            SsaError::UnknownValue(v) => {
                out.append("unknown value %");
                push_decimal(&mut out, *v as u128);
            },
        }
        assert(out@ =~= self.message());
        out
    }
}

impl View for Ssa {
    type V = Seq<Option<Op>>;

    closed spec fn view(&self) -> Seq<Option<Op>> {
        self.defs@
    }
}

impl Clone for Ssa {
    fn clone(&self) -> (res: Self)
        ensures
            res@ == self@,
            self.wf() ==> res.wf(),
    {
        let mut defs: Vec<Option<Op>> = Vec::new();
        let mut i: usize = 0;
        while i < self.defs.len()
            invariant
                i <= self.defs@.len(),
                defs@ == self.defs@.take(i as int),
            decreases self.defs@.len() - i,
        {
            match &self.defs[i] {
                Some(op) => defs.push(Some(op.clone())),
                None => defs.push(None),
            }
            i += 1;
            assert(defs@ =~= self.defs@.take(i as int));
        }
        assert(defs@ =~= self.defs@);
        let mut params: Vec<Value> = Vec::new();
        let mut j: usize = 0;
        while j < self.params.len()
            invariant
                j <= self.params@.len(),
                params@ == self.params@.take(j as int),
            decreases self.params@.len() - j,
        {
            params.push(self.params[j]);
            j += 1;
            assert(params@ =~= self.params@.take(j as int));
        }
        assert(params@ =~= self.params@);
        Ssa { defs, params }
    }
}

impl Default for Ssa {
    fn default() -> (res: Self)
        ensures
            res@ == Seq::<Option<Op>>::empty(),
            res.wf(),
    {
        Ssa::new()
    }
}

impl Ssa {
    /// The list of parameters agrees with the definitions.
    pub closed spec fn wf(self) -> bool {
        self.params@ == param_ids(self.defs@)
    }

    /// A graph without values.
    pub fn new() -> (res: Self)
        ensures
            res@ == Seq::<Option<Op>>::empty(),
            res.wf(),
    {
        Ssa { defs: Vec::new(), params: Vec::new() }
    }

    /// Declare an input parameter.
    pub fn new_param(&mut self) -> (res: Value)
        ensures
            res == Value(old(self)@.len() as u32),
            final(self)@ == old(self)@.push(None),
            old(self).wf() ==> final(self).wf(),
    {
        let v = Value(self.defs.len() as u32);
        self.defs.push(None);
        self.params.push(v);
        proof {
            assert(self.defs@.drop_last() =~= old(self).defs@);
        }
        v
    }

    /// Append a definition.
    pub(crate) fn push(&mut self, op: Op) -> (res: Value)
        ensures
            res == Value(old(self)@.len() as u32),
            final(self)@ == old(self)@.push(Some(op)),
            old(self).wf() ==> final(self).wf(),
    {
        let v = Value(self.defs.len() as u32);
        self.defs.push(Some(op));
        proof {
            assert(self.defs@.drop_last() =~= old(self).defs@);
        }
        v
    }

    /// `%v = const i`
    pub fn constant(&mut self, v: i64) -> (res: Value)
        ensures
            res == Value(old(self)@.len() as u32),
            final(self)@ == old(self)@.push(Some(Op::Const(v))),
            old(self).wf() ==> final(self).wf(),
    {
        self.push(Op::Const(v))
    }

    /// `%v = add a b`
    pub fn add(&mut self, a: Value, b: Value) -> (res: Value)
        ensures
            res == Value(old(self)@.len() as u32),
            final(self)@ == old(self)@.push(Some(Op::Add(a, b))),
            old(self).wf() ==> final(self).wf(),
    {
        self.push(Op::Add(a, b))
    }

    /// `%v = mul a b`
    pub fn mul(&mut self, a: Value, b: Value) -> (res: Value)
        ensures
            res == Value(old(self)@.len() as u32),
            final(self)@ == old(self)@.push(Some(Op::Mul(a, b))),
            old(self).wf() ==> final(self).wf(),
    {
        self.push(Op::Mul(a, b))
    }

    /// `%v = neg a`
    pub fn neg(&mut self, a: Value) -> (res: Value)
        ensures
            res == Value(old(self)@.len() as u32),
            final(self)@ == old(self)@.push(Some(Op::Neg(a))),
            old(self).wf() ==> final(self).wf(),
    {
        self.push(Op::Neg(a))
    }

    /// Total number of values, parameters included.
    pub fn len(&self) -> (res: usize)
        ensures
            res == self@.len(),
    {
        self.defs.len()
    }

    /// True when the graph holds no value.
    pub fn is_empty(&self) -> (res: bool)
        ensures
            res == (self@.len() == 0),
    {
        self.defs.len() == 0
    }

    /// The operation defining `v`, if any.
    pub fn op_of(&self, v: Value) -> (res: Option<&Op>)
        ensures
            match res {
                Some(op) => op_at(self@, v) == Some(*op),
                None => op_at(self@, v) is None,
            },
    {
        if (v.0 as usize) < self.defs.len() {
            match &self.defs[v.0 as usize] {
                Some(op) => Some(op),
                None => None,
            }
        } else {
            None
        }
    }

    /// The definition at a position: none for a parameter.
    pub(crate) fn definition(&self, i: usize) -> (res: Option<&Op>)
        requires
            i < self@.len(),
        ensures
            match res {
                Some(op) => self@[i as int] == Some(*op),
                None => self@[i as int] is None,
            },
    {
        match &self.defs[i] {
            Some(op) => Some(op),
            None => None,
        }
    }

    /// True when `v` is a declared parameter.
    pub fn is_param(&self, v: Value) -> (res: bool)
        ensures
            res == (v.0 < self@.len() && self@[v.0 as int] is None),
    {
        if (v.0 as usize) < self.defs.len() {
            self.defs[v.0 as usize].is_none()
        } else {
            false
        }
    }

    /// Values whose operation references `v`.
    pub fn uses(&self, v: Value) -> (res: Vec<Value>)
        ensures
            res@ == users(self@, v),
    {
        let mut out: Vec<Value> = Vec::new();
        let mut i: usize = 0;
        assert(self.defs@.take(0) =~= Seq::<Option<Op>>::empty());
        while i < self.defs.len()
            invariant
                i <= self.defs@.len(),
                out@ == users(self.defs@.take(i as int), v),
            decreases self.defs@.len() - i,
        {
            proof {
                assert(self.defs@.take(i + 1).drop_last() =~= self.defs@.take(i as int));
            }
            match &self.defs[i] {
                Some(op) => {
                    if op.reads_value(v) {
                        out.push(Value(i as u32));
                    }
                },
                None => {},
            }
            i += 1;
        }
        assert(self.defs@.take(i as int) =~= self.defs@);
        out
    }

    /// Straight-line dominance: `a` precedes `b` and `b` uses `a`.
    pub fn dominates(&self, a: Value, b: Value) -> (res: bool)
        ensures
            res == (a.0 < b.0 && reads(op_at(self@, b), a)),
    {
        if a.0 < b.0 {
            match self.op_of(b) {
                Some(op) => op.reads_value(a),
                None => false,
            }
        } else {
            false
        }
    }

    /// Full soundness check: every operand exists and is defined strictly
    /// before its use. Definitions are checked in order, the operands of each
    /// from left to right, and the first fault is reported.
    pub fn validate(&self) -> (res: Result<(), SsaError>)
        ensures
            match graph_fault(self@, 0) {
                Some(e) => res == Err::<(), SsaError>(e),
                None => res is Ok,
            },
            self@.len() <= u32::MAX ==> (res is Ok <==> valid(self@)),
    {
        proof {
            if self@.len() <= u32::MAX {
                law_validate_decides_valid(self@);
            }
        }
        let len: usize = self.defs.len();
        let mut i: usize = 0;
        while i < len
            invariant
                i <= len,
                len == self.defs@.len(),
                len <= u32::MAX ==> (graph_fault(self.defs@, 0) is None <==> valid(self.defs@)),
                graph_fault(self.defs@, 0) == graph_fault(self.defs@, i as int),
            decreases len - i,
        {
            let idx: u32 = i as u32;
            match &self.defs[i] {
                Some(op) => {
                    let ws: Vec<Value> = op.operands();
                    let mut k: usize = 0;
                    while k < ws.len()
                        invariant
                            k <= ws@.len(),
                            i < len,
                            len == self.defs@.len(),
                            len <= u32::MAX ==> (graph_fault(self.defs@, 0) is None <==> valid(
                                self.defs@,
                            )),
                            idx == i as u32,
                            self.defs@[i as int] == Some(*op),
                            ws@ == operands_of(*op),
                            graph_fault(self.defs@, 0) == graph_fault(self.defs@, i as int),
                            operands_fault(len as nat, idx, ws@, 0) == operands_fault(
                                len as nat,
                                idx,
                                ws@,
                                k as int,
                            ),
                        decreases ws@.len() - k,
                    {
                        let w = ws[k];
                        if w.0 as usize >= len {
                            return Err(SsaError::UnknownValue(w.0));
                        }
                        if w.0 >= idx {
                            return Err(SsaError::UseBeforeDef { use_idx: idx, def_idx: w.0 });
                        }
                        k += 1;
                    }
                },
                None => {},
            }
            i += 1;
        }
        Ok(())
    }

    /// Compute `v` given the values of the parameters.
    pub fn evaluate(&self, v: Value, params: &[i64]) -> (res: Result<i64, SsaError>)
        requires
            self.wf(),
            evaluates(self@, v, params@),
        ensures
            evaluates_to(self@, v, params@, res),
    {
        let ghost fuel = choose|fuel: nat| (#[trigger] eval(self@, v, params@, fuel)) is Some;
        self.evaluate_within(v, params, Ghost(fuel))
    }

    /// Compute `v` where `fuel` nested operations are known to be enough.
    fn evaluate_within(&self, v: Value, params: &[i64], Ghost(fuel): Ghost<nat>) -> (res: Result<
        i64,
        SsaError,
    >)
        requires
            self.wf(),
            eval(self@, v, params@, fuel) is Some,
        ensures
            eval(self@, v, params@, fuel) == Some(res),
        decreases fuel,
    {
        let ghost below = (fuel - 1) as nat;
        match self.op_of(v) {
            None => self.argument_of(v, params),
            Some(Op::Const(c)) => Ok(*c),
            Some(Op::Add(a, b)) => match self.evaluate_within(*a, params, Ghost(below)) {
                Ok(x) => match self.evaluate_within(*b, params, Ghost(below)) {
                    Ok(y) => Ok(x + y),
                    Err(e) => Err(e),
                },
                Err(e) => Err(e),
            },
            Some(Op::Mul(a, b)) => match self.evaluate_within(*a, params, Ghost(below)) {
                Ok(x) => match self.evaluate_within(*b, params, Ghost(below)) {
                    Ok(y) => Ok(x * y),
                    Err(e) => Err(e),
                },
                Err(e) => Err(e),
            },
            Some(Op::Neg(a)) => match self.evaluate_within(*a, params, Ghost(below)) {
                Ok(x) => Ok(-x),
                Err(e) => Err(e),
            },
        }
    }

    /// The argument of a parameter: the position of the parameter in the list
    /// of parameters selects it.
    fn argument_of(&self, v: Value, params: &[i64]) -> (res: Result<i64, SsaError>)
        requires
            self.wf(),
            op_at(self@, v) is None,
        ensures
            res == argument(self@, v, params@),
    {
        proof {
            if v.0 < self.defs@.len() {
                lemma_param_position(self.defs@, v.0 as int);
            } else {
                lemma_param_ids_bound(self.defs@);
            }
        }
        let ghost known = v.0 < self.defs@.len();
        let ghost place = param_ordinal(self.defs@, v.0 as int) as int;
        let mut ordinal: usize = 0;
        while ordinal < self.params.len()
            invariant
                ordinal <= self.params@.len(),
                known == (v.0 < self@.len()),
                place == param_ordinal(self@, v.0 as int),
                known ==> place < self.params@.len() && self.params@[place] == v && (forall|j: int|
                    0 <= j < place ==> (#[trigger] self.params@[j]).0 < v.0),
                !known ==> (forall|j: int|
                    0 <= j < self.params@.len() ==> (#[trigger] self.params@[j]).0 < v.0),
                forall|j: int| 0 <= j < ordinal ==> self.params@[j] != v,
            decreases self.params@.len() - ordinal,
        {
            if self.params[ordinal] == v {
                assert(self.params@[ordinal as int] == v);
                assert(ordinal == place);
                if ordinal < params.len() {
                    return Ok(params[ordinal]);
                } else {
                    return Err(SsaError::UnknownValue(v.0));
                }
            }
            ordinal += 1;
        }
        Err(SsaError::UnknownValue(v.0))
    }
}

/// In a graph whose positions fit a register, every parameter lies below the
/// graph's length.
proof fn lemma_param_ids_bound(defs: Seq<Option<Op>>)
    requires
        defs.len() <= u32::MAX + 1,
    ensures
        forall|j: int| 0 <= j < param_ids(defs).len() ==> (#[trigger] param_ids(defs)[j]).0
            < defs.len(),
    decreases defs.len(),
{
    if defs.len() > 0 {
        lemma_param_ids_bound(defs.drop_last());
        let earlier = param_ids(defs.drop_last());
        assert forall|j: int| 0 <= j < param_ids(defs).len() implies (#[trigger] param_ids(
            defs,
        )[j]).0 < defs.len() by {
            if j < earlier.len() {
                assert(param_ids(defs)[j] == earlier[j]);
            }
        }
    }
}

/// A parameter stands in the list of parameters at its ordinal, and not before.
proof fn lemma_param_position(defs: Seq<Option<Op>>, i: int)
    requires
        0 <= i < defs.len(),
        i <= u32::MAX,
        defs[i] is None,
    ensures
        param_ordinal(defs, i) < param_ids(defs).len(),
        param_ids(defs)[param_ordinal(defs, i) as int] == Value(i as u32),
        forall|j: int|
            0 <= j < param_ordinal(defs, i) ==> (#[trigger] param_ids(defs)[j]).0 < i,
    decreases defs.len(),
{
    if i == defs.len() - 1 {
        assert(defs.take(i) =~= defs.drop_last());
        lemma_param_ids_bound(defs.drop_last());
    } else {
        assert(defs.drop_last().take(i) =~= defs.take(i));
        lemma_param_position(defs.drop_last(), i);
    }
}

/// A graph is accepted by the check exactly if every operand is defined
/// before its use.
pub proof fn law_validate_decides_valid(defs: Seq<Option<Op>>)
    requires
        defs.len() <= u32::MAX,
    ensures
        graph_fault(defs, 0) is None <==> valid(defs),
{
    lemma_graph_fault(defs, 0);
    if graph_fault(defs, 0) is None {
        assert(valid(defs));
    }
}

/// No fault from position `i` on means that the operands from there on are
/// defined before their uses.
proof fn lemma_graph_fault(defs: Seq<Option<Op>>, i: int)
    requires
        defs.len() <= u32::MAX,
        0 <= i <= defs.len(),
    ensures
        graph_fault(defs, i) is None <==> (forall|j: int, w: Value|
            i <= j < defs.len() && #[trigger] reads(defs[j], w) ==> w.0 < j),
    decreases defs.len() - i,
{
    if i < defs.len() {
        lemma_graph_fault(defs, i + 1);
        if defs[i] is Some {
            let ws = operands_of(defs[i]->Some_0);
            lemma_operands_fault(defs.len(), i as u32, ws, 0);
            if operands_fault(defs.len(), i as u32, ws, 0) is Some {
                let k = choose|k: int|
                    0 <= k < ws.len() && !((#[trigger] ws[k]).0 < i && ws[k].0 < defs.len());
                assert(reads(defs[i], ws[k]));
            } else {
                assert forall|w: Value| #[trigger] reads(defs[i], w) implies w.0 < i by {
                    let k = ws.index_of(w);
                    assert(ws[k] == w);
                }
            }
        }
    }
}

/// No fault from operand `k` on means that these operands lie below `idx`.
proof fn lemma_operands_fault(len: nat, idx: u32, ws: Seq<Value>, k: int)
    requires
        idx < len,
        0 <= k <= ws.len(),
    ensures
        operands_fault(len, idx, ws, k) is None <==> (forall|j: int|
            k <= j < ws.len() ==> (#[trigger] ws[j]).0 < idx && ws[j].0 < len),
    decreases ws.len() - k,
{
    if k < ws.len() {
        lemma_operands_fault(len, idx, ws, k + 1);
    }
}

/// More room for nested operations does not change an outcome.
proof fn lemma_eval_monotone(
    defs: Seq<Option<Op>>,
    v: Value,
    params: Seq<i64>,
    fuel: nat,
    more: nat,
)
    requires
        fuel <= more,
        eval(defs, v, params, fuel) is Some,
    ensures
        eval(defs, v, params, more) == eval(defs, v, params, fuel),
    decreases fuel,
{
    let f = (fuel - 1) as nat;
    let m = (more - 1) as nat;
    match op_at(defs, v) {
        Some(Op::Add(a, b)) => {
            lemma_eval_monotone(defs, a, params, f, m);
            if eval(defs, a, params, f)->Some_0 is Ok {
                lemma_eval_monotone(defs, b, params, f, m);
            }
        },
        Some(Op::Mul(a, b)) => {
            lemma_eval_monotone(defs, a, params, f, m);
            if eval(defs, a, params, f)->Some_0 is Ok {
                lemma_eval_monotone(defs, b, params, f, m);
            }
        },
        Some(Op::Neg(a)) => {
            lemma_eval_monotone(defs, a, params, f, m);
        },
        _ => {},
    }
}

/// Computing a value has at most one outcome.
pub proof fn law_evaluation_is_deterministic(
    defs: Seq<Option<Op>>,
    v: Value,
    params: Seq<i64>,
    r1: Result<i64, SsaError>,
    r2: Result<i64, SsaError>,
)
    requires
        evaluates_to(defs, v, params, r1),
        evaluates_to(defs, v, params, r2),
    ensures
        r1 == r2,
{
    let f1 = choose|fuel: nat| #[trigger] eval(defs, v, params, fuel) == Some(r1);
    let f2 = choose|fuel: nat| #[trigger] eval(defs, v, params, fuel) == Some(r2);
    if f1 <= f2 {
        lemma_eval_monotone(defs, v, params, f1, f2);
    } else {
        lemma_eval_monotone(defs, v, params, f2, f1);
    }
}

/// On a valid graph, what evaluation returns is what the value means as an
/// integer, the parameters standing for the arguments.
pub proof fn law_evaluation_computes_meaning(
    defs: Seq<Option<Op>>,
    v: Value,
    params: Seq<i64>,
    r: i64,
)
    requires
        valid(defs),
        evaluates_to(defs, v, params, Ok(r)),
    ensures
        r == meaning(defs, v, arguments_env(defs, params)),
{
    let fuel = choose|fuel: nat|
        #[trigger] eval(defs, v, params, fuel) == Some(Ok::<i64, SsaError>(r));
    lemma_eval_meaning(defs, v, params, fuel);
}

proof fn lemma_eval_meaning(defs: Seq<Option<Op>>, v: Value, params: Seq<i64>, fuel: nat)
    requires
        valid(defs),
        eval(defs, v, params, fuel) is Some,
        eval(defs, v, params, fuel)->Some_0 is Ok,
    ensures
        eval(defs, v, params, fuel)->Some_0->Ok_0 == meaning(
            defs,
            v,
            arguments_env(defs, params),
        ),
    decreases fuel,
{
    let f = (fuel - 1) as nat;
    match op_at(defs, v) {
        Some(Op::Add(a, b)) => {
            lemma_operands_below(defs, v);
            lemma_eval_meaning(defs, a, params, f);
            lemma_eval_meaning(defs, b, params, f);
        },
        Some(Op::Mul(a, b)) => {
            lemma_operands_below(defs, v);
            lemma_eval_meaning(defs, a, params, f);
            lemma_eval_meaning(defs, b, params, f);
        },
        Some(Op::Neg(a)) => {
            lemma_operands_below(defs, v);
            lemma_eval_meaning(defs, a, params, f);
        },
        _ => {},
    }
}

/// In a valid graph the operands of a definition lie below it.
pub proof fn lemma_operands_below(defs: Seq<Option<Op>>, v: Value)
    requires
        valid(defs),
    ensures
        match op_at(defs, v) {
            Some(Op::Add(a, b)) => a.0 < v.0 && b.0 < v.0,
            Some(Op::Mul(a, b)) => a.0 < v.0 && b.0 < v.0,
            Some(Op::Neg(a)) => a.0 < v.0,
            _ => true,
        },
{
    match op_at(defs, v) {
        Some(Op::Add(a, b)) => {
            let ws = operands_of(Op::Add(a, b));
            assert(ws[0] == a && ws[1] == b);
            assert(reads(defs[v.0 as int], a) && reads(defs[v.0 as int], b));
        },
        Some(Op::Mul(a, b)) => {
            let ws = operands_of(Op::Mul(a, b));
            assert(ws[0] == a && ws[1] == b);
            assert(reads(defs[v.0 as int], a) && reads(defs[v.0 as int], b));
        },
        Some(Op::Neg(a)) => {
            let ws = operands_of(Op::Neg(a));
            assert(ws[0] == a);
            assert(reads(defs[v.0 as int], a));
        },
        _ => {},
    }
}

/// A value of a valid graph can be computed whenever there is an argument for
/// every parameter and no value up to it leaves the range of `i64`.
pub proof fn law_valid_graph_evaluates(defs: Seq<Option<Op>>, v: Value, params: Seq<i64>)
    requires
        valid(defs),
        v.0 < defs.len(),
        param_ids(defs).len() <= params.len(),
        forall|w: Value|
            w.0 <= v.0 ==> i64::MIN <= #[trigger] meaning(defs, w, arguments_env(defs, params))
                <= i64::MAX,
    ensures
        evaluates_to(
            defs,
            v,
            params,
            Ok(meaning(defs, v, arguments_env(defs, params)) as i64),
        ),
{
    lemma_valid_graph_evaluates(defs, v, params, v.0 as nat + 1);
}

proof fn lemma_valid_graph_evaluates(
    defs: Seq<Option<Op>>,
    v: Value,
    params: Seq<i64>,
    fuel: nat,
)
    requires
        valid(defs),
        v.0 < defs.len(),
        v.0 < fuel,
        param_ids(defs).len() <= params.len(),
        forall|w: Value|
            w.0 <= v.0 ==> i64::MIN <= #[trigger] meaning(defs, w, arguments_env(defs, params))
                <= i64::MAX,
    ensures
        eval(defs, v, params, fuel) == Some(
            Ok::<i64, SsaError>(meaning(defs, v, arguments_env(defs, params)) as i64),
        ),
    decreases v.0,
{
    let f = (fuel - 1) as nat;
    let env = arguments_env(defs, params);
    let m = meaning(defs, v, env);
    lemma_operands_below(defs, v);
    match op_at(defs, v) {
        None => {
            lemma_param_position(defs, v.0 as int);
        },
        Some(Op::Const(_)) => {},
        Some(Op::Add(a, b)) => {
            lemma_valid_graph_evaluates(defs, a, params, f);
            lemma_valid_graph_evaluates(defs, b, params, f);
        },
        Some(Op::Mul(a, b)) => {
            lemma_valid_graph_evaluates(defs, a, params, f);
            lemma_valid_graph_evaluates(defs, b, params, f);
        },
        Some(Op::Neg(a)) => {
            lemma_valid_graph_evaluates(defs, a, params, f);
        },
    }
}

/// Every definition gets a value of its own: the one that is appended next
/// differs from all that exist.
pub proof fn law_definitions_are_fresh(defs: Seq<Option<Op>>, v: Value)
    requires
        v.0 < defs.len() <= u32::MAX,
    ensures
        Value(defs.len() as u32) != v,
{
}

/// Appending a parameter, or an operation on values that already exist, keeps
/// a graph valid and leaves what every earlier value means as it was.
pub proof fn law_append_keeps_graph(
    defs: Seq<Option<Op>>,
    d: Option<Op>,
    v: Value,
    env: spec_fn(u32) -> int,
)
    requires
        valid(defs),
        forall|w: Value| #[trigger] reads(d, w) ==> w.0 < defs.len(),
        v.0 < defs.len(),
    ensures
        valid(defs.push(d)),
        meaning(defs.push(d), v, env) == meaning(defs, v, env),
{
    lemma_append_valid(defs, d);
    lemma_append_meaning(defs, d, v, env);
}

pub proof fn lemma_append_valid(defs: Seq<Option<Op>>, d: Option<Op>)
    requires
        valid(defs),
        forall|w: Value| #[trigger] reads(d, w) ==> w.0 < defs.len(),
    ensures
        valid(defs.push(d)),
{
    assert forall|i: int, w: Value|
        0 <= i < defs.push(d).len() && #[trigger] reads(defs.push(d)[i], w) implies w.0 < i by {
        if i < defs.len() {
            assert(reads(defs[i], w));
        }
    }
}

pub proof fn lemma_append_meaning(
    defs: Seq<Option<Op>>,
    d: Option<Op>,
    v: Value,
    env: spec_fn(u32) -> int,
)
    requires
        v.0 < defs.len(),
    ensures
        meaning(defs.push(d), v, env) == meaning(defs, v, env),
    decreases v.0,
{
    match op_at(defs, v) {
        Some(Op::Add(a, b)) => {
            if a.0 < v.0 && b.0 < v.0 {
                lemma_append_meaning(defs, d, a, env);
                lemma_append_meaning(defs, d, b, env);
            }
        },
        Some(Op::Mul(a, b)) => {
            if a.0 < v.0 && b.0 < v.0 {
                lemma_append_meaning(defs, d, a, env);
                lemma_append_meaning(defs, d, b, env);
            }
        },
        Some(Op::Neg(a)) => {
            if a.0 < v.0 {
                lemma_append_meaning(defs, d, a, env);
            }
        },
        _ => {},
    }
}

/// The reported uses of a value are exactly the definitions that read it.
pub proof fn law_uses_are_the_readers(defs: Seq<Option<Op>>, v: Value, u: Value)
    requires
        defs.len() <= u32::MAX,
    ensures
        users(defs, v).contains(u) <==> reads(op_at(defs, u), v),
    decreases defs.len(),
{
    if defs.len() > 0 {
        let rest = defs.drop_last();
        law_uses_are_the_readers(rest, v, u);
        let last = Value((defs.len() - 1) as u32);
        let earlier = users(rest, v);
        if reads(defs.last(), v) {
            assert(users(defs, v) == earlier.push(last));
            assert(users(defs, v)[earlier.len() as int] == last);
            if users(defs, v).contains(u) && u != last {
                let k = users(defs, v).index_of(u);
                assert(earlier[k] == u);
            }
            if earlier.contains(u) {
                let k = earlier.index_of(u);
                assert(users(defs, v)[k] == u);
            }
        }
    }
}

/// On a valid graph a value dominates exactly its uses.
pub proof fn law_dominance_is_use(defs: Seq<Option<Op>>, a: Value, b: Value)
    requires
        valid(defs),
        defs.len() <= u32::MAX,
    ensures
        (a.0 < b.0 && reads(op_at(defs, b), a)) <==> users(defs, a).contains(b),
{
    law_uses_are_the_readers(defs, a, b);
}

/// What a value of a valid graph means depends on the parameters of the graph
/// alone.
pub proof fn law_meaning_depends_on_parameters(
    defs: Seq<Option<Op>>,
    v: Value,
    env1: spec_fn(u32) -> int,
    env2: spec_fn(u32) -> int,
)
    requires
        valid(defs),
        v.0 < defs.len(),
        forall|i: u32| i < defs.len() && defs[i as int] is None ==> #[trigger] env1(i) == env2(i),
    ensures
        meaning(defs, v, env1) == meaning(defs, v, env2),
    decreases v.0,
{
    lemma_operands_below(defs, v);
    match op_at(defs, v) {
        Some(Op::Add(a, b)) => {
            law_meaning_depends_on_parameters(defs, a, env1, env2);
            law_meaning_depends_on_parameters(defs, b, env1, env2);
        },
        Some(Op::Mul(a, b)) => {
            law_meaning_depends_on_parameters(defs, a, env1, env2);
            law_meaning_depends_on_parameters(defs, b, env1, env2);
        },
        Some(Op::Neg(a)) => {
            law_meaning_depends_on_parameters(defs, a, env1, env2);
        },
        None => {
            assert(env1(v.0) == env2(v.0));
        },
        Some(Op::Const(_)) => {},
    }
}

/// The number of parameters among the first `i` definitions and one more.
pub proof fn lemma_ordinal_step(defs: Seq<Option<Op>>, i: int)
    requires
        0 <= i < defs.len(),
    ensures
        param_ordinal(defs, i + 1) == param_ordinal(defs, i) + if defs[i] is None {
            1nat
        } else {
            0nat
        },
        param_ordinal(defs, i) <= i,
    decreases i,
{
    assert(defs.take(i + 1).drop_last() =~= defs.take(i));
    if i > 0 {
        lemma_ordinal_step(defs, i - 1);
    } else {
        assert(defs.take(0) =~= Seq::<Option<Op>>::empty());
    }
}

/// There are no more parameters before a position than in all.
pub proof fn lemma_ordinal_bound(defs: Seq<Option<Op>>, i: int)
    requires
        0 <= i <= defs.len(),
    ensures
        param_ordinal(defs, i) <= param_count(defs),
        i < defs.len() && defs[i] is None ==> param_ordinal(defs, i) < param_count(defs),
        param_ordinal(defs, i) <= i,
        param_count(defs) - param_ordinal(defs, i) <= defs.len() - i,
    decreases defs.len() - i,
{
    if i == defs.len() {
        assert(defs.take(i) =~= defs);
        if i > 0 {
            lemma_ordinal_step(defs, i - 1);
        }
    } else {
        lemma_ordinal_step(defs, i);
        lemma_ordinal_bound(defs, i + 1);
    }
}

/// Before a later position there are at least as many operations as before an
/// earlier one, and at least as many parameters; one more of the kind that
/// stands at the earlier one.
pub proof fn lemma_ordinals_grow(defs: Seq<Option<Op>>, w: int, m: int)
    requires
        0 <= w < m <= defs.len(),
    ensures
        w - param_ordinal(defs, w) + (if defs[w] is Some {
            1int
        } else {
            0int
        }) <= m - param_ordinal(defs, m),
        param_ordinal(defs, w) + (if defs[w] is None {
            1int
        } else {
            0int
        }) <= param_ordinal(defs, m),
    decreases m - w,
{
    lemma_ordinal_step(defs, m - 1);
    if w < m - 1 {
        lemma_ordinals_grow(defs, w, m - 1);
    }
}

/// One more definition leaves the ordinals of the others as they are.
pub proof fn lemma_ordinal_push(defs: Seq<Option<Op>>, d: Option<Op>)
    ensures
        param_count(defs.push(d)) == param_count(defs) + if d is None {
            1nat
        } else {
            0nat
        },
        forall|i: int|
            0 <= i <= defs.len() ==> #[trigger] param_ordinal(defs.push(d), i) == param_ordinal(
                defs,
                i,
            ),
{
    assert(defs.push(d).drop_last() =~= defs);
    assert forall|i: int| 0 <= i <= defs.len() implies #[trigger] param_ordinal(defs.push(d), i)
        == param_ordinal(defs, i) by {
        assert(defs.push(d).take(i) =~= defs.take(i));
    }
}

/// What a value of a valid graph means follows its definition: a sum means
/// the sum of what its operands mean, and so on; a parameter means what is
/// assigned to it.
pub proof fn law_meaning_follows_definitions(
    defs: Seq<Option<Op>>,
    v: Value,
    env: spec_fn(u32) -> int,
)
    requires
        valid(defs),
        v.0 < defs.len(),
    ensures
        match defs[v.0 as int] {
            None => meaning(defs, v, env) == env(v.0),
            Some(Op::Const(c)) => meaning(defs, v, env) == c,
            Some(Op::Add(a, b)) => meaning(defs, v, env) == meaning(defs, a, env) + meaning(
                defs,
                b,
                env,
            ),
            Some(Op::Mul(a, b)) => meaning(defs, v, env) == meaning(defs, a, env) * meaning(
                defs,
                b,
                env,
            ),
            Some(Op::Neg(a)) => meaning(defs, v, env) == -meaning(defs, a, env),
        },
{
    lemma_operands_below(defs, v);
}

/// The ordinal of a parameter is the number of parameters that are declared
/// before it.
pub proof fn law_ordinals_count_parameters(defs: Seq<Option<Op>>, i: int)
    requires
        0 <= i <= defs.len(),
    ensures
        param_ordinal(defs, i) == defs.take(i).filter(|d: Option<Op>| d is None).len(),
{
    lemma_parameters_are_counted(defs.take(i));
}

proof fn lemma_parameters_are_counted(defs: Seq<Option<Op>>)
    ensures
        param_ids(defs).len() == defs.filter(|d: Option<Op>| d is None).len(),
    decreases defs.len(),
{
    reveal(Seq::filter);
    if defs.len() > 0 {
        lemma_parameters_are_counted(defs.drop_last());
    }
}

/// Arguments go to the parameters in the order of their declaration: a
/// parameter evaluates to the argument with as many others before it as there
/// are parameters before the parameter. One that has no argument, and a value
/// that does not exist, are unknown.
pub proof fn law_parameters_take_their_arguments(
    defs: Seq<Option<Op>>,
    v: Value,
    params: Seq<i64>,
    r: Result<i64, SsaError>,
)
    requires
        v.0 < defs.len() ==> defs[v.0 as int] is None,
    ensures
        v.0 < defs.len() ==> ({
            let k = defs.take(v.0 as int).filter(|d: Option<Op>| d is None).len();
            evaluates_to(defs, v, params, r) <==> r == if k < params.len() {
                Ok::<i64, SsaError>(params[k as int])
            } else {
                Err(SsaError::UnknownValue(v.0))
            }
        }),
        v.0 >= defs.len() ==> (evaluates_to(defs, v, params, r) <==> r == Err::<i64, SsaError>(
            SsaError::UnknownValue(v.0),
        )),
{
    if v.0 < defs.len() {
        law_ordinals_count_parameters(defs, v.0 as int);
    }
    assert(eval(defs, v, params, 1) == Some(argument(defs, v, params)));
    if evaluates_to(defs, v, params, r) {
        law_evaluation_is_deterministic(defs, v, params, r, argument(defs, v, params));
    }
}

/// Evaluation computes what the definitions say: a result of a sum is the sum
/// of results of its operands, and so on. The error of an operation is that
/// of its first operand that has one.
pub proof fn law_evaluation_follows_definitions(
    defs: Seq<Option<Op>>,
    v: Value,
    params: Seq<i64>,
    r: Result<i64, SsaError>,
)
    requires
        v.0 < defs.len(),
        evaluates_to(defs, v, params, r),
    ensures
        match (defs[v.0 as int], r) {
            (None, _) => true,
            (Some(Op::Const(c)), _) => r == Ok::<i64, SsaError>(c),
            (Some(Op::Add(a, b)), Ok(z)) => exists|x: i64, y: i64|
                {
                    &&& #[trigger] evaluates_to(defs, a, params, Ok(x))
                    &&& #[trigger] evaluates_to(defs, b, params, Ok(y))
                    &&& z == x + y
                },
            (Some(Op::Mul(a, b)), Ok(z)) => exists|x: i64, y: i64|
                {
                    &&& #[trigger] evaluates_to(defs, a, params, Ok(x))
                    &&& #[trigger] evaluates_to(defs, b, params, Ok(y))
                    &&& z == x * y
                },
            (Some(Op::Neg(a)), Ok(z)) => exists|x: i64|
                #[trigger] evaluates_to(defs, a, params, Ok(x)) && z == -x,
            (Some(Op::Neg(a)), Err(e)) => evaluates_to(defs, a, params, Err(e)),
            (Some(Op::Add(a, b)), Err(e)) => evaluates_to(defs, a, params, Err(e)) || {
                &&& exists|x: i64| #[trigger] evaluates_to(defs, a, params, Ok(x))
                &&& evaluates_to(defs, b, params, Err(e))
            },
            (Some(Op::Mul(a, b)), Err(e)) => evaluates_to(defs, a, params, Err(e)) || {
                &&& exists|x: i64| #[trigger] evaluates_to(defs, a, params, Ok(x))
                &&& evaluates_to(defs, b, params, Err(e))
            },
        },
{
    let fuel = choose|fuel: nat| #[trigger] eval(defs, v, params, fuel) == Some(r);
    let f = (fuel - 1) as nat;
    match defs[v.0 as int] {
        Some(Op::Add(a, b)) => {
            lemma_outcome(defs, a, params, f);
            lemma_outcome(defs, b, params, f);
        },
        Some(Op::Mul(a, b)) => {
            lemma_outcome(defs, a, params, f);
            lemma_outcome(defs, b, params, f);
        },
        Some(Op::Neg(a)) => {
            lemma_outcome(defs, a, params, f);
        },
        _ => {},
    }
}

/// What is computed with some room is an outcome.
proof fn lemma_outcome(defs: Seq<Option<Op>>, v: Value, params: Seq<i64>, fuel: nat)
    ensures
        eval(defs, v, params, fuel) matches Some(Ok(x)) ==> evaluates_to(defs, v, params, Ok(x)),
        eval(defs, v, params, fuel) matches Some(Err(e)) ==> evaluates_to(defs, v, params, Err(e)),
{
}

/// Operations on results that exist have a result, as long as it is in range:
/// nothing else keeps evaluation from coming to an end.
pub proof fn law_operations_evaluate(
    defs: Seq<Option<Op>>,
    v: Value,
    params: Seq<i64>,
    x: i64,
    y: i64,
)
    requires
        v.0 < defs.len(),
    ensures
        match defs[v.0 as int] {
            None => true,
            Some(Op::Const(c)) => evaluates_to(defs, v, params, Ok(c)),
            Some(Op::Add(a, b)) => evaluates_to(defs, a, params, Ok(x)) && evaluates_to(
                defs,
                b,
                params,
                Ok(y),
            ) && i64::MIN <= x + y <= i64::MAX ==> evaluates_to(
                defs,
                v,
                params,
                Ok((x + y) as i64),
            ),
            Some(Op::Mul(a, b)) => evaluates_to(defs, a, params, Ok(x)) && evaluates_to(
                defs,
                b,
                params,
                Ok(y),
            ) && i64::MIN <= x * y <= i64::MAX ==> evaluates_to(
                defs,
                v,
                params,
                Ok((x * y) as i64),
            ),
            Some(Op::Neg(a)) => evaluates_to(defs, a, params, Ok(x)) && -x <= i64::MAX
                ==> evaluates_to(defs, v, params, Ok((-x) as i64)),
        },
{
    match defs[v.0 as int] {
        None => {},
        Some(Op::Const(c)) => {
            assert(eval(defs, v, params, 1) == Some(Ok::<i64, SsaError>(c)));
        },
        Some(Op::Add(a, b)) => {
            if evaluates_to(defs, a, params, Ok(x)) && evaluates_to(defs, b, params, Ok(y))
                && i64::MIN <= x + y <= i64::MAX {
                let fuel = lemma_common_room(defs, a, b, params, x, y);
                assert(eval(defs, v, params, fuel + 1) == Some(
                    Ok::<i64, SsaError>((x + y) as i64),
                ));
            }
        },
        Some(Op::Mul(a, b)) => {
            if evaluates_to(defs, a, params, Ok(x)) && evaluates_to(defs, b, params, Ok(y))
                && i64::MIN <= x * y <= i64::MAX {
                let fuel = lemma_common_room(defs, a, b, params, x, y);
                assert(eval(defs, v, params, fuel + 1) == Some(
                    Ok::<i64, SsaError>((x * y) as i64),
                ));
            }
        },
        Some(Op::Neg(a)) => {
            if evaluates_to(defs, a, params, Ok(x)) && -x <= i64::MAX {
                let fuel = lemma_common_room(defs, a, a, params, x, x);
                assert(eval(defs, v, params, fuel + 1) == Some(Ok::<i64, SsaError>((-x) as i64)));
            }
        },
    }
}

/// There is room in which two results are both computed.
proof fn lemma_common_room(
    defs: Seq<Option<Op>>,
    a: Value,
    b: Value,
    params: Seq<i64>,
    x: i64,
    y: i64,
) -> (fuel: nat)
    requires
        evaluates_to(defs, a, params, Ok(x)),
        evaluates_to(defs, b, params, Ok(y)),
    ensures
        eval(defs, a, params, fuel) == Some(Ok::<i64, SsaError>(x)),
        eval(defs, b, params, fuel) == Some(Ok::<i64, SsaError>(y)),
{
    let f = choose|fuel: nat|
        #[trigger] eval(defs, a, params, fuel) == Some(Ok::<i64, SsaError>(x));
    let g = choose|fuel: nat|
        #[trigger] eval(defs, b, params, fuel) == Some(Ok::<i64, SsaError>(y));
    let fuel = f + g;
    lemma_eval_monotone(defs, a, params, f, fuel);
    lemma_eval_monotone(defs, b, params, g, fuel);
    fuel
}

/// An error of an operand is the outcome, that of the left one first.
pub proof fn law_errors_are_passed_on(
    defs: Seq<Option<Op>>,
    v: Value,
    params: Seq<i64>,
    x: i64,
    e: SsaError,
)
    requires
        v.0 < defs.len(),
    ensures
        match defs[v.0 as int] {
            Some(Op::Add(a, b)) => {
                &&& evaluates_to(defs, a, params, Err(e)) ==> evaluates_to(defs, v, params, Err(e))
                &&& evaluates_to(defs, a, params, Ok(x)) && evaluates_to(defs, b, params, Err(e))
                    ==> evaluates_to(defs, v, params, Err(e))
            },
            Some(Op::Mul(a, b)) => {
                &&& evaluates_to(defs, a, params, Err(e)) ==> evaluates_to(defs, v, params, Err(e))
                &&& evaluates_to(defs, a, params, Ok(x)) && evaluates_to(defs, b, params, Err(e))
                    ==> evaluates_to(defs, v, params, Err(e))
            },
            Some(Op::Neg(a)) => evaluates_to(defs, a, params, Err(e)) ==> evaluates_to(
                defs,
                v,
                params,
                Err(e),
            ),
            _ => true,
        },
{
    match defs[v.0 as int] {
        Some(Op::Add(a, b)) => {
            lemma_error_passed_on(defs, v, a, b, params, x, e);
        },
        Some(Op::Mul(a, b)) => {
            lemma_error_passed_on(defs, v, a, b, params, x, e);
        },
        Some(Op::Neg(a)) => {
            if evaluates_to(defs, a, params, Err(e)) {
                let f = choose|fuel: nat|
                    #[trigger] eval(defs, a, params, fuel) == Some(Err::<i64, SsaError>(e));
                assert(eval(defs, v, params, f + 1) == Some(Err::<i64, SsaError>(e)));
            }
        },
        _ => {},
    }
}

proof fn lemma_error_passed_on(
    defs: Seq<Option<Op>>,
    v: Value,
    a: Value,
    b: Value,
    params: Seq<i64>,
    x: i64,
    e: SsaError,
)
    requires
        op_at(defs, v) == Some(Op::Add(a, b)) || op_at(defs, v) == Some(Op::Mul(a, b)),
    ensures
        evaluates_to(defs, a, params, Err(e)) ==> evaluates_to(defs, v, params, Err(e)),
        evaluates_to(defs, a, params, Ok(x)) && evaluates_to(defs, b, params, Err(e))
            ==> evaluates_to(defs, v, params, Err(e)),
{
    if evaluates_to(defs, a, params, Err(e)) {
        let f = choose|fuel: nat|
            #[trigger] eval(defs, a, params, fuel) == Some(Err::<i64, SsaError>(e));
        assert(eval(defs, v, params, f + 1) == Some(Err::<i64, SsaError>(e)));
    }
    if evaluates_to(defs, a, params, Ok(x)) && evaluates_to(defs, b, params, Err(e)) {
        let f = choose|fuel: nat|
            #[trigger] eval(defs, a, params, fuel) == Some(Ok::<i64, SsaError>(x));
        let g = choose|fuel: nat|
            #[trigger] eval(defs, b, params, fuel) == Some(Err::<i64, SsaError>(e));
        lemma_eval_monotone(defs, a, params, f, f + g);
        lemma_eval_monotone(defs, b, params, g, f + g);
        assert(eval(defs, v, params, f + g + 1) == Some(Err::<i64, SsaError>(e)));
    }
}

/// An operation reads its operands from left to right, and a constant reads
/// nothing.
pub proof fn law_operations_read_their_operands(a: Value, b: Value, c: i64, w: Value)
    ensures
        operands_of(Op::Const(c)).len() == 0,
        operands_of(Op::Add(a, b)) == seq![a, b],
        operands_of(Op::Mul(a, b)) == seq![a, b],
        operands_of(Op::Neg(a)) == seq![a],
        reads(Some(Op::Add(a, b)), w) <==> w == a || w == b,
        reads(Some(Op::Mul(a, b)), w) <==> w == a || w == b,
        reads(Some(Op::Neg(a)), w) <==> w == a,
        !reads(Some(Op::Const(c)), w),
        !reads(None, w),
{
    let two = seq![a, b];
    assert(two[0] == a && two[1] == b);
    assert(seq![a][0] == a);
}

/// The definition of a value stands at its position; a value beyond the graph
/// has none.
pub proof fn law_definitions_stand_at_their_positions(defs: Seq<Option<Op>>, v: Value)
    ensures
        v.0 < defs.len() ==> op_at(defs, v) == defs[v.0 as int],
        v.0 >= defs.len() ==> op_at(defs, v) is None,
{
}

/// The uses of a value are listed in ascending order, each once.
pub proof fn law_uses_ascend(defs: Seq<Option<Op>>, v: Value, i: int, j: int)
    requires
        defs.len() <= u32::MAX,
        0 <= i < j < users(defs, v).len(),
    ensures
        users(defs, v)[i].0 < users(defs, v)[j].0 < defs.len(),
    decreases defs.len(),
{
    lemma_users_bound(defs, v);
    let rest = defs.drop_last();
    lemma_users_bound(rest, v);
    if j < users(rest, v).len() {
        law_uses_ascend(rest, v, i, j);
    }
}

proof fn lemma_users_bound(defs: Seq<Option<Op>>, v: Value)
    requires
        defs.len() <= u32::MAX,
    ensures
        forall|i: int| 0 <= i < users(defs, v).len() ==> (#[trigger] users(defs, v)[i]).0
            < defs.len(),
    decreases defs.len(),
{
    if defs.len() > 0 {
        let earlier = users(defs.drop_last(), v);
        lemma_users_bound(defs.drop_last(), v);
        assert forall|i: int| 0 <= i < users(defs, v).len() implies (#[trigger] users(
            defs,
            v,
        )[i]).0 < defs.len() by {
            if i < earlier.len() {
                assert(users(defs, v)[i] == earlier[i]);
            }
        }
    }
}

/// The operand is at fault at that position: it does not exist, or is not
/// defined before the position.
pub open spec fn at_fault(defs: Seq<Option<Op>>, i: int, w: Value, e: SsaError) -> bool {
    if w.0 >= defs.len() {
        e == SsaError::UnknownValue(w.0)
    } else {
        w.0 >= i && e == (SsaError::UseBeforeDef { use_idx: i as u32, def_idx: w.0 })
    }
}

/// The fault that the check reports is the first one: an operand of a
/// definition is at fault, all operands of earlier definitions and the
/// operands to its left are defined before their use.
pub proof fn law_first_fault_is_reported(defs: Seq<Option<Op>>, e: SsaError)
    requires
        defs.len() <= u32::MAX,
        graph_fault(defs, 0) == Some(e),
    ensures
        exists|i: int, k: int|
            {
                &&& 0 <= i < defs.len()
                &&& (#[trigger] defs[i]) is Some
                &&& 0 <= k < operands_of(defs[i]->Some_0).len()
                &&& at_fault(defs, i, #[trigger] operands_of(defs[i]->Some_0)[k], e)
                &&& forall|j: int, w: Value|
                    0 <= j < i && #[trigger] reads(defs[j], w) ==> w.0 < j
                &&& forall|l: int|
                    0 <= l < k ==> (#[trigger] operands_of(defs[i]->Some_0)[l]).0 < i
            },
{
    lemma_first_fault(defs, 0, e);
}

proof fn lemma_first_fault(defs: Seq<Option<Op>>, n: int, e: SsaError)
    requires
        defs.len() <= u32::MAX,
        0 <= n,
        graph_fault(defs, n) == Some(e),
        forall|j: int, w: Value| 0 <= j < n && #[trigger] reads(defs[j], w) ==> w.0 < j,
    ensures
        exists|i: int, k: int|
            {
                &&& 0 <= i < defs.len()
                &&& (#[trigger] defs[i]) is Some
                &&& 0 <= k < operands_of(defs[i]->Some_0).len()
                &&& at_fault(defs, i, #[trigger] operands_of(defs[i]->Some_0)[k], e)
                &&& forall|j: int, w: Value|
                    0 <= j < i && #[trigger] reads(defs[j], w) ==> w.0 < j
                &&& forall|l: int|
                    0 <= l < k ==> (#[trigger] operands_of(defs[i]->Some_0)[l]).0 < i
            },
    decreases defs.len() - n,
{
    match defs[n] {
        Some(op) => {
            let ws = operands_of(op);
            lemma_operands_fault(defs.len(), n as u32, ws, 0);
            if operands_fault(defs.len(), n as u32, ws, 0) is Some {
                let k = lemma_first_operand_fault(defs.len(), n as u32, ws, 0);
                assert(at_fault(defs, n, operands_of(defs[n]->Some_0)[k], e));
            } else {
                assert forall|w: Value| #[trigger] reads(defs[n], w) implies w.0 < n by {
                    let k = ws.index_of(w);
                    assert(ws[k] == w);
                }
                lemma_first_fault(defs, n + 1, e);
            }
        },
        None => {
            lemma_first_fault(defs, n + 1, e);
        },
    }
}

proof fn lemma_first_operand_fault(len: nat, idx: u32, ws: Seq<Value>, n: int) -> (k: int)
    requires
        0 <= n,
        operands_fault(len, idx, ws, n) is Some,
        forall|l: int| 0 <= l < n ==> (#[trigger] ws[l]).0 < idx,
    ensures
        0 <= k < ws.len(),
        operand_fault(len, idx, ws[k]) == operands_fault(len, idx, ws, n),
        operand_fault(len, idx, ws[k]) is Some,
        forall|l: int| 0 <= l < k ==> (#[trigger] ws[l]).0 < idx,
    decreases ws.len() - n,
{
    if operand_fault(len, idx, ws[n]) is Some {
        n
    } else {
        lemma_first_operand_fault(len, idx, ws, n + 1)
    }
}

/// The messages of the errors hold the positions that they are about.
pub proof fn law_messages_name_the_positions(use_idx: u32, def_idx: u32)
    ensures
        SsaError::UnknownValue(def_idx).message() == "unknown value %"@ + decimal(def_idx as nat),
        (SsaError::UseBeforeDef { use_idx, def_idx }).message() == "use-before-def: value %"@
            + decimal(use_idx as nat) + " uses def %"@ + decimal(def_idx as nat),
{
}

/// Calls of evaluation compute with each other: the result for a sum is the
/// sum of the results for its operands, and so on.
pub proof fn law_evaluations_add_up(
    g: &Ssa,
    v: Value,
    a: Value,
    b: Value,
    params: &[i64],
    x: i64,
    y: i64,
    r: Result<i64, SsaError>,
)
    requires
        v.0 < g@.len(),
        call_ensures(Ssa::evaluate, (g, a, params), Ok(x)),
        call_ensures(Ssa::evaluate, (g, b, params), Ok(y)),
        call_ensures(Ssa::evaluate, (g, v, params), r),
    ensures
        g@[v.0 as int] == Some(Op::Add(a, b)) ==> (r matches Ok(z) && z == x + y),
        g@[v.0 as int] == Some(Op::Mul(a, b)) ==> (r matches Ok(z) && z == x * y),
        g@[v.0 as int] == Some(Op::Neg(a)) ==> (r matches Ok(z) && z == -x),
        g@[v.0 as int] matches Some(Op::Const(c)) ==> r == Ok::<i64, SsaError>(c),
        g@[v.0 as int] is None ==> ({
            let k = g@.take(v.0 as int).filter(|d: Option<Op>| d is None).len();
            r == if k < params@.len() {
                Ok::<i64, SsaError>(params@[k as int])
            } else {
                Err(SsaError::UnknownValue(v.0))
            }
        }),
{
    let defs = g@;
    law_evaluation_follows_definitions(defs, v, params@, r);
    if defs[v.0 as int] is None {
        law_parameters_take_their_arguments(defs, v, params@, r);
    }
    match (defs[v.0 as int], r) {
        (Some(Op::Add(c, d)), Ok(z)) => {
            let (p, q) = choose|p: i64, q: i64|
                {
                    &&& #[trigger] evaluates_to(defs, c, params@, Ok(p))
                    &&& #[trigger] evaluates_to(defs, d, params@, Ok(q))
                    &&& z == p + q
                };
            if c == a && d == b {
                law_evaluation_is_deterministic(defs, a, params@, Ok(x), Ok(p));
                law_evaluation_is_deterministic(defs, b, params@, Ok(y), Ok(q));
            }
        },
        (Some(Op::Mul(c, d)), Ok(z)) => {
            let (p, q) = choose|p: i64, q: i64|
                {
                    &&& #[trigger] evaluates_to(defs, c, params@, Ok(p))
                    &&& #[trigger] evaluates_to(defs, d, params@, Ok(q))
                    &&& z == p * q
                };
            if c == a && d == b {
                law_evaluation_is_deterministic(defs, a, params@, Ok(x), Ok(p));
                law_evaluation_is_deterministic(defs, b, params@, Ok(y), Ok(q));
            }
        },
        (Some(Op::Neg(c)), Ok(z)) => {
            let p = choose|p: i64|
                #[trigger] evaluates_to(defs, c, params@, Ok(p)) && z == -p;
            if c == a {
                law_evaluation_is_deterministic(defs, a, params@, Ok(x), Ok(p));
            }
        },
        (Some(Op::Add(c, d)), Err(e)) => {
            if c == a && d == b {
                lemma_no_error(defs, a, params@, x, e);
                lemma_no_error(defs, b, params@, y, e);
            }
        },
        (Some(Op::Mul(c, d)), Err(e)) => {
            if c == a && d == b {
                lemma_no_error(defs, a, params@, x, e);
                lemma_no_error(defs, b, params@, y, e);
            }
        },
        (Some(Op::Neg(c)), Err(e)) => {
            if c == a {
                lemma_no_error(defs, a, params@, x, e);
            }
        },
        _ => {},
    }
}

/// What has a result has no error.
proof fn lemma_no_error(defs: Seq<Option<Op>>, v: Value, params: Seq<i64>, x: i64, e: SsaError)
    requires
        evaluates_to(defs, v, params, Ok(x)),
    ensures
        !evaluates_to(defs, v, params, Err(e)),
{
    if evaluates_to(defs, v, params, Err(e)) {
        law_evaluation_is_deterministic(defs, v, params, Ok(x), Err(e));
    }
}

/// The check accepts a graph exactly if every operand comes before the
/// definition that reads it; an error is about an operand at fault.
pub proof fn law_the_check_accepts_ordered_graphs(g: &Ssa, res: Result<(), SsaError>)
    requires
        call_ensures(Ssa::validate, (g,), res),
        g@.len() <= u32::MAX,
    ensures
        res is Ok <==> (forall|i: int, w: Value|
            0 <= i < g@.len() && #[trigger] reads(g@[i], w) ==> w.0 < i),
        res matches Err(e) ==> exists|i: int, k: int|
            {
                &&& 0 <= i < g@.len()
                &&& (#[trigger] g@[i]) is Some
                &&& 0 <= k < operands_of(g@[i]->Some_0).len()
                &&& at_fault(g@, i, #[trigger] operands_of(g@[i]->Some_0)[k], e)
                &&& forall|j: int, w: Value|
                    0 <= j < i && #[trigger] reads(g@[j], w) ==> w.0 < j
                &&& forall|l: int|
                    0 <= l < k ==> (#[trigger] operands_of(g@[i]->Some_0)[l]).0 < i
            },
{
    law_validate_decides_valid(g@);
    if let Err(e) = res {
        law_first_fault_is_reported(g@, e);
    }
}

/// Questions about a graph are answered by its definitions: what defines a
/// value, whether it is a parameter, what reads it, and whether one value
/// dominates another.
pub proof fn law_graphs_answer_by_their_definitions(
    g: &Ssa,
    a: Value,
    b: Value,
    op: Option<&Op>,
    param: bool,
    uses: Vec<Value>,
    dominates: bool,
    n: usize,
    empty: bool,
)
    requires
        g@.len() <= u32::MAX,
        call_ensures(Ssa::op_of, (g, a), op),
        call_ensures(Ssa::is_param, (g, a), param),
        call_ensures(Ssa::uses, (g, a), uses),
        call_ensures(Ssa::dominates, (g, a, b), dominates),
        call_ensures(Ssa::len, (g,), n),
        call_ensures(Ssa::is_empty, (g,), empty),
    ensures
        op matches Some(o) ==> a.0 < g@.len() && g@[a.0 as int] == Some(*o),
        op is None ==> a.0 >= g@.len() || g@[a.0 as int] is None,
        param <==> a.0 < g@.len() && g@[a.0 as int] is None,
        uses@.contains(b) <==> b.0 < g@.len() && reads(g@[b.0 as int], a),
        dominates <==> a.0 < b.0 && b.0 < g@.len() && reads(g@[b.0 as int], a),
        n == g@.len(),
        empty <==> g@.len() == 0,
{
    law_uses_are_the_readers(g@, a, b);
}

/// Building appends: every call adds one definition behind those that are
/// there, and gives its position.
pub proof fn law_building_appends(
    c: &mut Ssa,
    d: &mut Ssa,
    e: &mut Ssa,
    f: &mut Ssa,
    h: &mut Ssa,
    i: i64,
    a: Value,
    b: Value,
    of_const: Value,
    of_add: Value,
    of_mul: Value,
    of_neg: Value,
    of_param: Value,
)
    requires
        call_ensures(Ssa::constant, (c, i), of_const),
        call_ensures(Ssa::add, (d, a, b), of_add),
        call_ensures(Ssa::mul, (e, a, b), of_mul),
        call_ensures(Ssa::neg, (f, a), of_neg),
        call_ensures(Ssa::new_param, (h,), of_param),
    ensures
        final(c)@ == old(c)@.push(Some(Op::Const(i))) && of_const.0 == old(c)@.len() as u32,
        final(d)@ == old(d)@.push(Some(Op::Add(a, b))) && of_add.0 == old(d)@.len() as u32,
        final(e)@ == old(e)@.push(Some(Op::Mul(a, b))) && of_mul.0 == old(e)@.len() as u32,
        final(f)@ == old(f)@.push(Some(Op::Neg(a))) && of_neg.0 == old(f)@.len() as u32,
        final(h)@ == old(h)@.push(None) && of_param.0 == old(h)@.len() as u32,
{
}

} // verus!
