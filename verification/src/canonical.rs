//! Canonical form of data flow graphs that are to be compared.
//!
//! A graph that is built in the order of a source declares its parameters
//! where they first occur. Before two graphs are compared, their parameters
//! are moved to the front, to places on which both graphs agree: one list of
//! names for both, and each parameter at the place of its name. Operations
//! keep their order.
//!
//! The factors of a product are put in order too, so that commuted products
//! become one. The order is that of what the factors come to on fixed sample
//! numbers, modulo 2^64, a factor that comes to one standing last. Factors
//! that are equal by arithmetic come to the same, so no rewriting of a factor
//! changes the order.

use crate::ssa::{
    arguments_env, evaluates_to, law_evaluation_computes_meaning, lemma_operands_below,
    lemma_ordinal_bound, lemma_ordinal_step, lemma_ordinals_grow, meaning, op_at, param_count,
    param_ordinal, reads, valid, Op, Ssa, Value,
};
use crate::ssa_bridge::{law_valid_graph_becomes_tree, term_of};
use crate::text::{same_text, texts};
use vstd::arithmetic::div_mod::{
    lemma_add_mod_noop, lemma_mul_mod_noop, lemma_small_mod, lemma_sub_mod_noop,
};
use vstd::arithmetic::mul::lemma_mul_is_commutative;
use vstd::prelude::*;

verus! {

/// The place of a name in a list; the length of the list if it is not there.
pub open spec fn rank(order: Seq<Seq<char>>, name: Seq<char>) -> nat
    decreases order.len(),
{
    if order.len() == 0 {
        0
    } else if order[0] == name {
        0
    } else {
        1 + rank(order.skip(1), name)
    }
}

/// The names of the first list, and after them those of the second one that
/// are new.
pub open spec fn joint(a: Seq<Seq<char>>, b: Seq<Seq<char>>) -> Seq<Seq<char>>
    decreases b.len(),
{
    if b.len() == 0 {
        a
    } else {
        let earlier = joint(a, b.drop_last());
        if earlier.contains(b.last()) {
            earlier
        } else {
            earlier.push(b.last())
        }
    }
}

/// The places of names in a list.
pub open spec fn ranks(names: Seq<Seq<char>>, order: Seq<Seq<char>>) -> Seq<u32> {
    Seq::new(names.len(), |k: int| rank(order, names[k]) as u32)
}

/// The sample number of the parameter at a place.
pub open spec fn seed(place: u32) -> u64 {
    let x = ((2 * place + 3) as u64).wrapping_mul(0x9e37_79b9_7f4a_7c15);
    let y = x.wrapping_mul(x);
    y.wrapping_mul(y).wrapping_mul(x)
}

/// The assignment in which every parameter stands for the sample number of
/// its place.
pub open spec fn seeds(defs: Seq<Option<Op>>, slots: Seq<u32>) -> spec_fn(u32) -> int {
    |i: u32|
        if i < defs.len() && defs[i as int] is None {
            seed(slots[param_ordinal(defs, i as int) as int]) as int
        } else {
            0
        }
}

/// What a value comes to on the sample numbers, modulo 2^64.
pub open spec fn sample(defs: Seq<Option<Op>>, slots: Seq<u32>, v: Value) -> int {
    meaning(defs, v, seeds(defs, slots)) % 0x1_0000_0000_0000_0000
}

/// Factors that come to `x` and `y` are exchanged: they stand in ascending
/// order, but one stands last.
pub open spec fn exchanged(x: int, y: int) -> bool {
    y != 1 && (x == 1 || x > y)
}

/// Where the definition at position `i` stands in canonical form, where
/// `slots` are the places of the parameters among the first `count`.
pub open spec fn place_at(defs: Seq<Option<Op>>, slots: Seq<u32>, count: nat, i: int) -> Value {
    if defs[i] is None {
        Value(slots[param_ordinal(defs, i) as int])
    } else {
        Value((count + i - param_ordinal(defs, i)) as u32)
    }
}

/// Where a value stands in canonical form. An unknown value stays what it is.
pub open spec fn place(defs: Seq<Option<Op>>, slots: Seq<u32>, count: nat, v: Value) -> Value {
    if v.0 < defs.len() {
        place_at(defs, slots, count, v.0 as int)
    } else {
        v
    }
}

/// An operation whose operands are named by their canonical places.
pub open spec fn placed(defs: Seq<Option<Op>>, slots: Seq<u32>, count: nat, op: Op) -> Op {
    match op {
        Op::Const(c) => Op::Const(c),
        Op::Add(a, b) => Op::Add(place(defs, slots, count, a), place(defs, slots, count, b)),
        Op::Mul(a, b) => if exchanged(sample(defs, slots, a), sample(defs, slots, b)) {
            Op::Mul(place(defs, slots, count, b), place(defs, slots, count, a))
        } else {
            Op::Mul(place(defs, slots, count, a), place(defs, slots, count, b))
        },
        Op::Neg(a) => Op::Neg(place(defs, slots, count, a)),
    }
}

/// The operations among the first `n` definitions, in order.
pub open spec fn operations(
    defs: Seq<Option<Op>>,
    slots: Seq<u32>,
    count: nat,
    n: nat,
) -> Seq<Option<Op>>
    decreases n,
{
    if n == 0 {
        Seq::empty()
    } else {
        let earlier = operations(defs, slots, count, (n - 1) as nat);
        match defs[n - 1] {
            Some(op) => earlier.push(Some(placed(defs, slots, count, op))),
            None => earlier,
        }
    }
}

/// The graph in canonical form: `count` parameters, and then the operations.
pub open spec fn canonical(defs: Seq<Option<Op>>, slots: Seq<u32>, count: nat) -> Seq<Option<Op>> {
    Seq::new(count, |i: int| None::<Op>) + operations(defs, slots, count, defs.len())
}

/// The place of a name in a list.
fn rank_of(order: &Vec<String>, name: &str) -> (res: usize)
    ensures
        res == rank(texts(order@), name@),
{
    let ghost all = texts(order@);
    let mut i: usize = 0;
    assert(all.skip(0) =~= all);
    while i < order.len()
        invariant
            i <= order@.len(),
            all == texts(order@),
            rank(all, name@) == i + rank(all.skip(i as int), name@),
        decreases order@.len() - i,
    {
        assert(all.skip(i as int)[0] == order@[i as int]@);
        if same_text(order[i].as_str(), name) {
            return i;
        }
        assert(all.skip(i as int).skip(1) =~= all.skip(i + 1));
        i += 1;
    }
    i
}

/// The names of the first list, and after them those of the second one that
/// are new.
pub fn joint_names(a: &Vec<String>, b: &Vec<String>) -> (res: Vec<String>)
    ensures
        texts(res@) == joint(texts(a@), texts(b@)),
{
    let mut out: Vec<String> = Vec::new();
    let mut i: usize = 0;
    while i < a.len()
        invariant
            i <= a@.len(),
            texts(out@) == texts(a@).take(i as int),
        decreases a@.len() - i,
    {
        let ghost earlier = texts(out@);
        out.push(a[i].clone());
        assert(texts(out@) =~= earlier.push(a@[i as int]@));
        i += 1;
        assert(texts(out@) =~= texts(a@).take(i as int));
    }
    assert(texts(a@).take(i as int) =~= texts(a@));
    let ghost names = texts(b@);
    let mut j: usize = 0;
    assert(names.take(0) =~= Seq::<Seq<char>>::empty());
    while j < b.len()
        invariant
            j <= b@.len(),
            names == texts(b@),
            texts(out@) == joint(texts(a@), names.take(j as int)),
        decreases b@.len() - j,
    {
        let ghost earlier = texts(out@);
        proof {
            assert(names.take(j + 1).drop_last() =~= names.take(j as int));
            assert(names.take(j + 1).last() == b@[j as int]@);
            lemma_rank(earlier, b@[j as int]@);
        }
        if rank_of(&out, b[j].as_str()) == out.len() {
            out.push(b[j].clone());
            assert(texts(out@) =~= earlier.push(b@[j as int]@));
        }
        j += 1;
    }
    assert(names.take(j as int) =~= names);
    out
}

/// The places of names in a list.
pub fn ranks_of(names: &Vec<String>, order: &Vec<String>) -> (res: Vec<u32>)
    ensures
        res@ == ranks(texts(names@), texts(order@)),
{
    let mut out: Vec<u32> = Vec::new();
    let mut i: usize = 0;
    while i < names.len()
        invariant
            i <= names@.len(),
            out@ == ranks(texts(names@), texts(order@)).take(i as int),
        decreases names@.len() - i,
    {
        out.push(rank_of(order, names[i].as_str()) as u32);
        i += 1;
        assert(out@ =~= ranks(texts(names@), texts(order@)).take(i as int));
    }
    assert(out@ =~= ranks(texts(names@), texts(order@)));
    out
}

/// The place of a name is its first, if it is in the list at all.
pub proof fn lemma_rank(order: Seq<Seq<char>>, name: Seq<char>)
    ensures
        rank(order, name) <= order.len(),
        order.contains(name) <==> rank(order, name) < order.len(),
        order.contains(name) ==> order[rank(order, name) as int] == name,
    decreases order.len(),
{
    if order.len() > 0 {
        let rest = order.skip(1);
        lemma_rank(rest, name);
        if order.contains(name) && order[0] != name {
            let k = choose|k: int| 0 <= k < order.len() && order[k] == name;
            assert(rest[k - 1] == name);
        }
        if rest.contains(name) {
            let k = choose|k: int| 0 <= k < rest.len() && rest[k] == name;
            assert(order[k + 1] == name);
        }
        if order[0] == name {
            assert(order.contains(name));
        }
    }
}

/// The joint list holds the names of both lists, and no others.
pub proof fn lemma_joint(a: Seq<Seq<char>>, b: Seq<Seq<char>>)
    ensures
        forall|k: int| 0 <= k < a.len() ==> joint(a, b).contains(#[trigger] a[k]),
        forall|k: int| 0 <= k < b.len() ==> joint(a, b).contains(#[trigger] b[k]),
        joint(a, b).len() <= a.len() + b.len(),
    decreases b.len(),
{
    if b.len() > 0 {
        let rest = b.drop_last();
        let earlier = joint(a, rest);
        let all = joint(a, b);
        lemma_joint(a, rest);
        assert(forall|n: Seq<char>| #[trigger] earlier.contains(n) ==> all.contains(n)) by {
            assert forall|n: Seq<char>| #[trigger] earlier.contains(n) implies all.contains(n) by {
                let k = choose|k: int| 0 <= k < earlier.len() && earlier[k] == n;
                assert(all[k] == n);
            }
        }
        assert(all.contains(b.last())) by {
            if !earlier.contains(b.last()) {
                assert(all[all.len() - 1] == b.last());
            }
        }
        assert forall|k: int| 0 <= k < b.len() implies all.contains(#[trigger] b[k]) by {
            if k < rest.len() {
                assert(rest[k] == b[k]);
                assert(earlier.contains(rest[k]));
            }
        }
    }
}

/// Names that are in the first list already add nothing to it.
pub proof fn lemma_joint_absorbs(a: Seq<Seq<char>>, b: Seq<Seq<char>>)
    requires
        forall|k: int| 0 <= k < b.len() ==> a.contains(#[trigger] b[k]),
    ensures
        joint(a, b) == a,
    decreases b.len(),
{
    if b.len() > 0 {
        let rest = b.drop_last();
        assert forall|k: int| 0 <= k < rest.len() implies a.contains(#[trigger] rest[k]) by {
            assert(rest[k] == b[k]);
        }
        lemma_joint_absorbs(a, rest);
        assert(a.contains(b[b.len() - 1]));
    }
}

/// The ordinals of all definitions.
fn ordinals(ssa: &Ssa) -> (res: Vec<usize>)
    ensures
        res@.len() == ssa@.len(),
        forall|i: int| 0 <= i < ssa@.len() ==> #[trigger] res@[i] == param_ordinal(ssa@, i),
{
    let ghost defs = ssa@;
    let len: usize = ssa.len();
    let mut out: Vec<usize> = Vec::new();
    let mut count: usize = 0;
    let mut i: usize = 0;
    assert(defs.take(0) =~= Seq::<Option<Op>>::empty());
    while i < len
        invariant
            i <= len,
            len == defs.len(),
            defs == ssa@,
            out@.len() == i,
            count <= i,
            count == param_ordinal(defs, i as int),
            forall|k: int| 0 <= k < i ==> #[trigger] out@[k] == param_ordinal(defs, k),
        decreases len - i,
    {
        proof {
            lemma_ordinal_step(defs, i as int);
        }
        out.push(count);
        if ssa.definition(i).is_none() {
            count += 1;
        }
        i += 1;
    }
    out
}

/// The sample number of the parameter at a place.
fn seed_of(place: u32) -> (res: u64)
    ensures
        res == seed(place),
{
    let x: u64 = (2 * (place as u64) + 3).wrapping_mul(0x9e37_79b9_7f4a_7c15);
    let y: u64 = x.wrapping_mul(x);
    y.wrapping_mul(y).wrapping_mul(x)
}

/// A machine integer modulo 2^64.
fn residue(c: i64) -> (res: u64)
    ensures
        res == (c as int) % 0x1_0000_0000_0000_0000,
{
    if c >= 0 {
        c as u64
    } else {
        let magnitude: i128 = -(c as i128);
        (u64::MAX - (magnitude as u64)) + 1
    }
}

/// Sums, products and negations can be computed modulo 2^64.
proof fn lemma_residues(x: int, y: int, a: u64, b: u64)
    requires
        a == x % 0x1_0000_0000_0000_0000,
        b == y % 0x1_0000_0000_0000_0000,
    ensures
        a.wrapping_add(b) == (x + y) % 0x1_0000_0000_0000_0000,
        a.wrapping_mul(b) == (x * y) % 0x1_0000_0000_0000_0000,
        0u64.wrapping_sub(a) == (-x) % 0x1_0000_0000_0000_0000,
{
    let m: int = 0x1_0000_0000_0000_0000;
    lemma_add_mod_noop(x, y, m);
    lemma_mul_mod_noop(x, y, m);
    lemma_sub_mod_noop(0, x, m);
    assert(0int % m == 0);
    assert((0 - x) == -x);
}

/// What all values come to on the sample numbers.
fn samples(ssa: &Ssa, ordinals: &Vec<usize>, slots: &Vec<u32>) -> (res: Vec<u64>)
    requires
        slots@.len() == param_count(ssa@),
        ordinals@.len() == ssa@.len(),
        forall|i: int| 0 <= i < ssa@.len() ==> #[trigger] ordinals@[i] == param_ordinal(ssa@, i),
    ensures
        res@.len() == ssa@.len(),
        forall|i: int|
            0 <= i < ssa@.len() && i <= u32::MAX ==> #[trigger] res@[i] == sample(
                ssa@,
                slots@,
                Value(i as u32),
            ),
{
    let ghost defs = ssa@;
    let ghost env = seeds(defs, slots@);
    let len: usize = ssa.len();
    let mut out: Vec<u64> = Vec::new();
    let mut i: usize = 0;
    while i < len
        invariant
            i <= len,
            len == defs.len(),
            defs == ssa@,
            env == seeds(defs, slots@),
            slots@.len() == param_count(defs),
            ordinals@.len() == len,
            forall|k: int| 0 <= k < len ==> #[trigger] ordinals@[k] == param_ordinal(defs, k),
            out@.len() == i,
            forall|k: int|
                0 <= k < i && k <= u32::MAX ==> #[trigger] out@[k] == sample(
                    defs,
                    slots@,
                    Value(k as u32),
                ),
        decreases len - i,
    {
        let ghost v = Value(i as u32);
        proof {
            lemma_ordinal_bound(defs, i as int);
        }
        let n: u64 = match ssa.definition(i) {
            None => {
                proof {
                    lemma_small_mod(
                        seed(slots@[param_ordinal(defs, i as int) as int]) as nat,
                        0x1_0000_0000_0000_0000,
                    );
                }
                seed_of(slots[ordinals[i]])
            },
            Some(Op::Const(c)) => residue(*c),
            Some(Op::Add(a, b)) => if (a.0 as usize) < i && (b.0 as usize) < i {
                proof {
                    lemma_residues(
                        meaning(defs, *a, env),
                        meaning(defs, *b, env),
                        out@[a.0 as int],
                        out@[b.0 as int],
                    );
                }
                out[a.0 as usize].wrapping_add(out[b.0 as usize])
            } else {
                0
            },
            Some(Op::Mul(a, b)) => if (a.0 as usize) < i && (b.0 as usize) < i {
                proof {
                    lemma_residues(
                        meaning(defs, *a, env),
                        meaning(defs, *b, env),
                        out@[a.0 as int],
                        out@[b.0 as int],
                    );
                }
                out[a.0 as usize].wrapping_mul(out[b.0 as usize])
            } else {
                0
            },
            Some(Op::Neg(a)) => if (a.0 as usize) < i {
                proof {
                    lemma_residues(
                        meaning(defs, *a, env),
                        0,
                        out@[a.0 as int],
                        0,
                    );
                }
                0u64.wrapping_sub(out[a.0 as usize])
            } else {
                0
            },
        };
        assert(i <= u32::MAX ==> n == sample(defs, slots@, v));
        out.push(n);
        i += 1;
    }
    out
}

/// What the canonical form of a graph is made with: the ordinals and samples
/// of its values, and the places of its parameters.
struct Layout<'a> {
    ordinals: Vec<usize>,
    samples: Vec<u64>,
    slots: &'a Vec<u32>,
    count: usize,
}

impl<'a> Layout<'a> {
    spec fn of(self, defs: Seq<Option<Op>>) -> bool {
        &&& self.slots@.len() == param_count(defs)
        &&& self.ordinals@.len() == defs.len()
        &&& self.samples@.len() == defs.len()
        &&& forall|i: int|
            0 <= i < defs.len() ==> #[trigger] self.ordinals@[i] == param_ordinal(defs, i)
        &&& forall|i: int|
            0 <= i < defs.len() && i <= u32::MAX ==> #[trigger] self.samples@[i] == sample(
                defs,
                self.slots@,
                Value(i as u32),
            )
    }

    /// The canonical place of a value.
    fn place(&self, ssa: &Ssa, v: Value) -> (res: Value)
        requires
            self.of(ssa@),
        ensures
            res == place(ssa@, self.slots@, self.count as nat, v),
    {
        let i: usize = v.0 as usize;
        if i < self.ordinals.len() {
            proof {
                lemma_ordinal_bound(ssa@, i as int);
            }
            let ordinal: usize = self.ordinals[i];
            if ssa.definition(i).is_none() {
                Value(self.slots[ordinal])
            } else {
                Value(((self.count as u128) + ((i - ordinal) as u128)) as u32)
            }
        } else {
            v
        }
    }

    /// What a value comes to on the sample numbers.
    fn sample(&self, ssa: &Ssa, v: Value) -> (res: u64)
        requires
            self.of(ssa@),
        ensures
            res == sample(ssa@, self.slots@, v),
    {
        let i: usize = v.0 as usize;
        if i < self.samples.len() {
            self.samples[i]
        } else {
            0
        }
    }
}

/// Put a graph in canonical form, and say where the value `root` stands in
/// it. The `k`-th parameter goes to the place `slots[k]` among the first
/// `count`.
pub fn params_first(ssa: &Ssa, root: Value, slots: &Vec<u32>, count: usize) -> (res: (Ssa, Value))
    requires
        slots@.len() == param_count(ssa@),
    ensures
        res.0@ == canonical(ssa@, slots@, count as nat),
        res.0.wf(),
        res.1 == place(ssa@, slots@, count as nat, root),
{
    let ghost defs = ssa@;
    let len: usize = ssa.len();
    let ordinals: Vec<usize> = ordinals(ssa);
    let samples: Vec<u64> = samples(ssa, &ordinals, slots);
    let layout = Layout { ordinals, samples, slots, count };
    let mut out = Ssa::new();
    let mut i: usize = 0;
    while i < count
        invariant
            i <= count,
            out.wf(),
            out@ == Seq::new(i as nat, |k: int| None::<Op>),
        decreases count - i,
    {
        out.new_param();
        i += 1;
        assert(out@ =~= Seq::new(i as nat, |k: int| None::<Op>));
    }
    let ghost front = out@;
    let mut j: usize = 0;
    assert(front + operations(defs, slots@, count as nat, 0) =~= front);
    while j < len
        invariant
            j <= len,
            len == defs.len(),
            defs == ssa@,
            out.wf(),
            layout.of(defs),
            layout.slots@ == slots@,
            layout.count == count,
            out@ == front + operations(defs, slots@, count as nat, j as nat),
        decreases len - j,
    {
        match ssa.definition(j) {
            Some(Op::Const(c)) => {
                out.constant(*c);
            },
            Some(Op::Add(a, b)) => {
                let x = layout.place(ssa, *a);
                let y = layout.place(ssa, *b);
                out.add(x, y);
            },
            Some(Op::Mul(a, b)) => {
                let x = layout.place(ssa, *a);
                let y = layout.place(ssa, *b);
                let m: u64 = layout.sample(ssa, *a);
                let n: u64 = layout.sample(ssa, *b);
                if n != 1 && (m == 1 || m > n) {
                    out.mul(y, x);
                } else {
                    out.mul(x, y);
                }
            },
            Some(Op::Neg(a)) => {
                let x = layout.place(ssa, *a);
                out.neg(x);
            },
            None => {},
        }
        j += 1;
        assert(out@ =~= front + operations(defs, slots@, count as nat, j as nat));
    }
    let at = layout.place(ssa, root);
    (out, at)
}

/// The places of the parameters fit the graph: one for each parameter, among
/// the first `count`, and no place is beyond the largest value.
pub open spec fn seated(defs: Seq<Option<Op>>, slots: Seq<u32>, count: nat) -> bool {
    &&& slots.len() == param_count(defs)
    &&& forall|k: int| 0 <= k < slots.len() ==> #[trigger] slots[k] < count
    &&& defs.len() <= u32::MAX
    &&& count + defs.len() - param_count(defs) <= u32::MAX
}

/// The operations in order.
proof fn lemma_operations(defs: Seq<Option<Op>>, slots: Seq<u32>, count: nat, n: nat)
    requires
        n <= defs.len(),
    ensures
        operations(defs, slots, count, n).len() == n - param_ordinal(defs, n as int),
    decreases n,
{
    if n == 0 {
        assert(defs.take(0) =~= Seq::<Option<Op>>::empty());
    } else {
        lemma_operations(defs, slots, count, (n - 1) as nat);
        lemma_ordinal_step(defs, n - 1);
    }
}

/// Where an operation stands among the operations.
proof fn lemma_operation_among(
    defs: Seq<Option<Op>>,
    slots: Seq<u32>,
    count: nat,
    n: nat,
    i: int,
)
    requires
        0 <= i < n <= defs.len(),
        defs[i] is Some,
    ensures
        0 <= i - param_ordinal(defs, i) < operations(defs, slots, count, n).len(),
        operations(defs, slots, count, n)[i - param_ordinal(defs, i)] == Some(
            placed(defs, slots, count, defs[i]->Some_0),
        ),
    decreases n,
{
    let m = (n - 1) as nat;
    lemma_operations(defs, slots, count, m);
    lemma_operations(defs, slots, count, n);
    lemma_ordinal_step(defs, m as int);
    if i < m {
        lemma_operation_among(defs, slots, count, m, i);
    }
}

/// The operations read what stands before them.
proof fn lemma_operations_read(
    defs: Seq<Option<Op>>,
    slots: Seq<u32>,
    count: nat,
    n: nat,
    k: int,
    w: Value,
)
    requires
        valid(defs),
        seated(defs, slots, count),
        n <= defs.len(),
        0 <= k < operations(defs, slots, count, n).len(),
        reads(operations(defs, slots, count, n)[k], w),
    ensures
        w.0 < count + k,
    decreases n,
{
    let m = (n - 1) as nat;
    let earlier = operations(defs, slots, count, m);
    if k < earlier.len() {
        lemma_operations_read(defs, slots, count, m, k, w);
    } else {
        let v = Value(m as u32);
        lemma_operations(defs, slots, count, m);
        lemma_placed_operands(defs, slots, count, v, w);
        lemma_operation_place(defs, slots, count, v);
    }
}

/// An operation stands behind the parameters, and in range.
proof fn lemma_operation_place(defs: Seq<Option<Op>>, slots: Seq<u32>, count: nat, v: Value)
    requires
        seated(defs, slots, count),
        v.0 < defs.len(),
        op_at(defs, v) is Some,
    ensures
        place(defs, slots, count, v).0 == count + v.0 - param_ordinal(defs, v.0 as int),
        count <= place(defs, slots, count, v).0 < count + defs.len() - param_count(defs),
{
    lemma_ordinal_bound(defs, v.0 as int);
    lemma_ordinals_grow(defs, v.0 as int, defs.len() as int);
    assert(defs.take(defs.len() as int) =~= defs);
}

/// A placed operation reads values that stand before it.
proof fn lemma_placed_operands(
    defs: Seq<Option<Op>>,
    slots: Seq<u32>,
    count: nat,
    v: Value,
    w: Value,
)
    requires
        valid(defs),
        seated(defs, slots, count),
        v.0 < defs.len(),
        op_at(defs, v) is Some,
        reads(Some(placed(defs, slots, count, op_at(defs, v)->Some_0)), w),
    ensures
        w.0 < place(defs, slots, count, v).0,
{
    lemma_operands_below(defs, v);
    match op_at(defs, v)->Some_0 {
        Op::Const(_) => {},
        Op::Add(a, b) => {
            lemma_place_below(defs, slots, count, a, v);
            lemma_place_below(defs, slots, count, b, v);
        },
        Op::Mul(a, b) => {
            lemma_place_below(defs, slots, count, a, v);
            lemma_place_below(defs, slots, count, b, v);
        },
        Op::Neg(a) => {
            lemma_place_below(defs, slots, count, a, v);
        },
    }
}

/// What comes before an operation stands before it in canonical form too.
proof fn lemma_place_below(
    defs: Seq<Option<Op>>,
    slots: Seq<u32>,
    count: nat,
    a: Value,
    v: Value,
)
    requires
        seated(defs, slots, count),
        a.0 < v.0 < defs.len(),
        op_at(defs, v) is Some,
    ensures
        place(defs, slots, count, a).0 < place(defs, slots, count, v).0,
{
    lemma_operation_place(defs, slots, count, v);
    lemma_ordinal_bound(defs, a.0 as int);
    if op_at(defs, a) is Some {
        lemma_operation_place(defs, slots, count, a);
        lemma_ordinals_grow(defs, a.0 as int, v.0 as int);
    }
}

/// What stands at the canonical place of an operation.
proof fn lemma_operation_at(defs: Seq<Option<Op>>, slots: Seq<u32>, count: nat, v: Value)
    requires
        valid(defs),
        seated(defs, slots, count),
        v.0 < defs.len(),
        op_at(defs, v) is Some,
    ensures
        place(defs, slots, count, v).0 < canonical(defs, slots, count).len(),
        canonical(defs, slots, count)[place(defs, slots, count, v).0 as int] == Some(
            placed(defs, slots, count, op_at(defs, v)->Some_0),
        ),
{
    lemma_operation_place(defs, slots, count, v);
    assert(defs.take(defs.len() as int) =~= defs);
    let ops = operations(defs, slots, count, defs.len());
    let k = v.0 - param_ordinal(defs, v.0 as int);
    lemma_operation_among(defs, slots, count, defs.len(), v.0 as int);
    assert(canonical(defs, slots, count)[count + k] == ops[k]);
}

/// What stands at the canonical place of a value.
proof fn lemma_canonical_at(defs: Seq<Option<Op>>, slots: Seq<u32>, count: nat, v: Value)
    requires
        valid(defs),
        seated(defs, slots, count),
        v.0 < defs.len(),
    ensures
        place(defs, slots, count, v).0 < canonical(defs, slots, count).len(),
        op_at(canonical(defs, slots, count), place(defs, slots, count, v)) == match op_at(
            defs,
            v,
        ) {
            Some(op) => Some(placed(defs, slots, count, op)),
            None => None,
        },
{
    lemma_ordinal_bound(defs, v.0 as int);
    if op_at(defs, v) is Some {
        lemma_operation_at(defs, slots, count, v);
    }
}

/// Canonical form keeps a graph valid. It has as many operations as before,
/// and every value has a place in it.
pub proof fn law_canonical_form_keeps_graphs_valid(
    defs: Seq<Option<Op>>,
    slots: Seq<u32>,
    count: nat,
)
    requires
        valid(defs),
        seated(defs, slots, count),
    ensures
        valid(canonical(defs, slots, count)),
        canonical(defs, slots, count).len() == count + defs.len() - param_count(defs),
        forall|v: Value|
            v.0 < defs.len() ==> (#[trigger] place(defs, slots, count, v)).0 < canonical(
                defs,
                slots,
                count,
            ).len(),
{
    lemma_operations(defs, slots, count, defs.len());
    assert(defs.take(defs.len() as int) =~= defs);
    let c = canonical(defs, slots, count);
    let ops = operations(defs, slots, count, defs.len());
    assert forall|i: int, w: Value| 0 <= i < c.len() && #[trigger] reads(c[i], w) implies w.0
        < i by {
        if i >= count {
            assert(c[i] == ops[i - count]);
            lemma_operations_read(defs, slots, count, defs.len(), i - count, w);
        }
    }
    assert forall|v: Value| v.0 < defs.len() implies (#[trigger] place(defs, slots, count, v)).0
        < c.len() by {
        lemma_canonical_at(defs, slots, count, v);
    }
}

/// Canonical form preserves meaning: a value means at its canonical place
/// what it meant before, every parameter standing for the same at its new
/// place.
pub proof fn law_canonical_form_preserves_meaning(
    defs: Seq<Option<Op>>,
    slots: Seq<u32>,
    count: nat,
    v: Value,
    env: spec_fn(u32) -> int,
    ordered: spec_fn(u32) -> int,
)
    requires
        valid(defs),
        seated(defs, slots, count),
        v.0 < defs.len(),
        forall|i: u32|
            i < defs.len() && defs[i as int] is None ==> #[trigger] env(i) == ordered(
                slots[param_ordinal(defs, i as int) as int],
            ),
    ensures
        meaning(canonical(defs, slots, count), place(defs, slots, count, v), ordered) == meaning(
            defs,
            v,
            env,
        ),
    decreases v.0,
{
    lemma_canonical_at(defs, slots, count, v);
    lemma_operands_below(defs, v);
    match op_at(defs, v) {
        None => {
            assert(env(v.0) == ordered(slots[param_ordinal(defs, v.0 as int) as int]));
        },
        Some(Op::Const(_)) => {},
        Some(Op::Add(a, b)) => {
            lemma_place_below(defs, slots, count, a, v);
            lemma_place_below(defs, slots, count, b, v);
            law_canonical_form_preserves_meaning(defs, slots, count, a, env, ordered);
            law_canonical_form_preserves_meaning(defs, slots, count, b, env, ordered);
        },
        Some(Op::Mul(a, b)) => {
            lemma_place_below(defs, slots, count, a, v);
            lemma_place_below(defs, slots, count, b, v);
            law_canonical_form_preserves_meaning(defs, slots, count, a, env, ordered);
            law_canonical_form_preserves_meaning(defs, slots, count, b, env, ordered);
            lemma_mul_is_commutative(meaning(defs, a, env), meaning(defs, b, env));
        },
        Some(Op::Neg(a)) => {
            lemma_place_below(defs, slots, count, a, v);
            law_canonical_form_preserves_meaning(defs, slots, count, a, env, ordered);
        },
    }
}

/// In canonical form it makes no difference in which order the factors of a
/// product were written, unless they come to the same on the sample numbers.
pub proof fn law_factors_stand_in_one_order(
    defs: Seq<Option<Op>>,
    slots: Seq<u32>,
    count: nat,
    a: Value,
    b: Value,
)
    requires
        sample(defs, slots, a) != sample(defs, slots, b),
    ensures
        placed(defs, slots, count, Op::Mul(a, b)) == placed(defs, slots, count, Op::Mul(b, a)),
{
}

/// Values that are equal by arithmetic, whatever the parameters stand for,
/// come to the same on the sample numbers.
pub proof fn law_equal_values_come_to_the_same(
    defs: Seq<Option<Op>>,
    slots: Seq<u32>,
    a: Value,
    b: Value,
)
    requires
        forall|env: spec_fn(u32) -> int| #[trigger]
            meaning(defs, a, env) == meaning(defs, b, env),
    ensures
        sample(defs, slots, a) == sample(defs, slots, b),
{
    assert(meaning(defs, a, seeds(defs, slots)) == meaning(defs, b, seeds(defs, slots)));
}

/// The assignment in which the first parameter stands for the first argument,
/// and so on.
pub open spec fn in_order(params: Seq<i64>) -> spec_fn(u32) -> int {
    |i: u32|
        if i < params.len() {
            params[i as int] as int
        } else {
            0
        }
}

/// A value of a valid graph evaluates to what it means in canonical form,
/// every argument being given at the place of its parameter.
pub proof fn law_canonical_form_evaluates_alike(
    defs: Seq<Option<Op>>,
    slots: Seq<u32>,
    count: nat,
    v: Value,
    params: Seq<i64>,
    ordered: spec_fn(u32) -> int,
    x: i64,
)
    requires
        valid(defs),
        seated(defs, slots, count),
        v.0 < defs.len(),
        forall|k: u32|
            k < slots.len() ==> ordered(#[trigger] slots[k as int]) == in_order(params)(k),
        evaluates_to(defs, v, params, Ok(x)),
    ensures
        meaning(canonical(defs, slots, count), place(defs, slots, count, v), ordered) == x,
{
    law_evaluation_computes_meaning(defs, v, params, x);
    let env = arguments_env(defs, params);
    assert forall|i: u32| i < defs.len() && defs[i as int] is None implies #[trigger] env(i)
        == ordered(slots[param_ordinal(defs, i as int) as int]) by {
        lemma_ordinal_bound(defs, i as int);
        let k = param_ordinal(defs, i as int) as u32;
        assert(ordered(slots[k as int]) == in_order(params)(k));
    }
    law_canonical_form_preserves_meaning(defs, slots, count, v, env, ordered);
}

/// Two values of graphs are the same tree of operations over parameters with
/// the same places.
pub open spec fn same_form(
    defs: Seq<Option<Op>>,
    slots: Seq<u32>,
    v: Value,
    more: Seq<Option<Op>>,
    spots: Seq<u32>,
    w: Value,
) -> bool
    decreases v.0,
{
    &&& v.0 < defs.len()
    &&& w.0 < more.len()
    &&& match (defs[v.0 as int], more[w.0 as int]) {
        (None, None) => slots[param_ordinal(defs, v.0 as int) as int]
            == spots[param_ordinal(more, w.0 as int) as int],
        (Some(Op::Const(c)), Some(Op::Const(d))) => c == d,
        (Some(Op::Add(a, b)), Some(Op::Add(x, y))) => {
            &&& a.0 < v.0 && b.0 < v.0
            &&& same_form(defs, slots, a, more, spots, x)
            &&& same_form(defs, slots, b, more, spots, y)
        },
        (Some(Op::Mul(a, b)), Some(Op::Mul(x, y))) => {
            &&& a.0 < v.0 && b.0 < v.0
            &&& same_form(defs, slots, a, more, spots, x)
            &&& same_form(defs, slots, b, more, spots, y)
        },
        (Some(Op::Neg(a)), Some(Op::Neg(x))) => {
            &&& a.0 < v.0
            &&& same_form(defs, slots, a, more, spots, x)
        },
        _ => false,
    }
}

/// Equal trees come to the same on the sample numbers.
proof fn lemma_same_form_samples(
    defs: Seq<Option<Op>>,
    slots: Seq<u32>,
    v: Value,
    more: Seq<Option<Op>>,
    spots: Seq<u32>,
    w: Value,
)
    requires
        valid(defs),
        valid(more),
        same_form(defs, slots, v, more, spots, w),
    ensures
        meaning(defs, v, seeds(defs, slots)) == meaning(more, w, seeds(more, spots)),
    decreases v.0,
{
    lemma_operands_below(defs, v);
    lemma_operands_below(more, w);
    match (defs[v.0 as int], more[w.0 as int]) {
        (Some(Op::Add(a, b)), Some(Op::Add(x, y))) => {
            lemma_same_form_samples(defs, slots, a, more, spots, x);
            lemma_same_form_samples(defs, slots, b, more, spots, y);
        },
        (Some(Op::Mul(a, b)), Some(Op::Mul(x, y))) => {
            lemma_same_form_samples(defs, slots, a, more, spots, x);
            lemma_same_form_samples(defs, slots, b, more, spots, y);
        },
        (Some(Op::Neg(a)), Some(Op::Neg(x))) => {
            lemma_same_form_samples(defs, slots, a, more, spots, x);
        },
        _ => {},
    }
}

/// Equal trees become one term in canonical form, however large the graphs
/// are and wherever the trees stand in them.
pub proof fn law_same_forms_have_one_term(
    defs: Seq<Option<Op>>,
    slots: Seq<u32>,
    v: Value,
    more: Seq<Option<Op>>,
    spots: Seq<u32>,
    w: Value,
    count: nat,
)
    requires
        valid(defs),
        valid(more),
        seated(defs, slots, count),
        seated(more, spots, count),
        same_form(defs, slots, v, more, spots, w),
    ensures
        term_of(canonical(defs, slots, count), place(defs, slots, count, v)) == term_of(
            canonical(more, spots, count),
            place(more, spots, count, w),
        ),
{
    law_canonical_form_keeps_graphs_valid(defs, slots, count);
    law_canonical_form_keeps_graphs_valid(more, spots, count);
    law_valid_graph_becomes_tree(canonical(defs, slots, count), place(defs, slots, count, v));
    law_valid_graph_becomes_tree(canonical(more, spots, count), place(more, spots, count, w));
    lemma_same_form_trees(defs, slots, v, more, spots, w, count);
}

proof fn lemma_same_form_trees(
    defs: Seq<Option<Op>>,
    slots: Seq<u32>,
    v: Value,
    more: Seq<Option<Op>>,
    spots: Seq<u32>,
    w: Value,
    count: nat,
)
    requires
        valid(defs),
        valid(more),
        seated(defs, slots, count),
        seated(more, spots, count),
        same_form(defs, slots, v, more, spots, w),
    ensures
        crate::ssa_bridge::tree(canonical(defs, slots, count), place(defs, slots, count, v)) == crate::ssa_bridge::tree(
            canonical(more, spots, count),
            place(more, spots, count, w),
        ),
    decreases v.0,
{
    lemma_canonical_at(defs, slots, count, v);
    lemma_canonical_at(more, spots, count, w);
    lemma_operands_below(defs, v);
    lemma_operands_below(more, w);
    match (defs[v.0 as int], more[w.0 as int]) {
        (Some(Op::Add(a, b)), Some(Op::Add(x, y))) => {
            lemma_place_below(defs, slots, count, a, v);
            lemma_place_below(defs, slots, count, b, v);
            lemma_place_below(more, spots, count, x, w);
            lemma_place_below(more, spots, count, y, w);
            lemma_same_form_trees(defs, slots, a, more, spots, x, count);
            lemma_same_form_trees(defs, slots, b, more, spots, y, count);
        },
        (Some(Op::Mul(a, b)), Some(Op::Mul(x, y))) => {
            lemma_place_below(defs, slots, count, a, v);
            lemma_place_below(defs, slots, count, b, v);
            lemma_place_below(more, spots, count, x, w);
            lemma_place_below(more, spots, count, y, w);
            lemma_same_form_trees(defs, slots, a, more, spots, x, count);
            lemma_same_form_trees(defs, slots, b, more, spots, y, count);
            lemma_same_form_samples(defs, slots, a, more, spots, x);
            lemma_same_form_samples(defs, slots, b, more, spots, y);
        },
        (Some(Op::Neg(a)), Some(Op::Neg(x))) => {
            lemma_place_below(defs, slots, count, a, v);
            lemma_place_below(more, spots, count, x, w);
            lemma_same_form_trees(defs, slots, a, more, spots, x, count);
        },
        _ => {},
    }
}

/// Putting a graph in canonical form keeps the meaning of the value that is
/// asked for, every parameter standing for the same at its new place.
pub proof fn law_graphs_keep_their_meaning(
    ssa: &Ssa,
    root: Value,
    slots: &Vec<u32>,
    count: usize,
    res: (Ssa, Value),
    env: spec_fn(u32) -> int,
    ordered: spec_fn(u32) -> int,
)
    requires
        call_ensures(params_first, (ssa, root, slots, count), res),
        valid(ssa@),
        seated(ssa@, slots@, count as nat),
        root.0 < ssa@.len(),
        forall|i: u32|
            i < ssa@.len() && ssa@[i as int] is None ==> #[trigger] env(i) == ordered(
                slots@[param_ordinal(ssa@, i as int) as int],
            ),
    ensures
        valid(res.0@),
        res.1.0 < res.0@.len(),
        meaning(res.0@, res.1, ordered) == meaning(ssa@, root, env),
{
    law_canonical_form_keeps_graphs_valid(ssa@, slots@, count as nat);
    law_canonical_form_preserves_meaning(ssa@, slots@, count as nat, root, env, ordered);
}

/// Both lists of names are ranked in their joint list, so that one name has
/// one place, and different names have different ones.
pub proof fn law_names_are_ranked(
    a: &Vec<String>,
    b: &Vec<String>,
    order: Vec<String>,
    of_a: Vec<u32>,
    of_b: Vec<u32>,
    i: int,
    j: int,
)
    requires
        call_ensures(joint_names, (a, b), order),
        call_ensures(ranks_of, (a, &order), of_a),
        call_ensures(ranks_of, (b, &order), of_b),
        order@.len() <= u32::MAX,
        0 <= i < a@.len(),
        0 <= j < b@.len(),
    ensures
        of_a@.len() == a@.len(),
        of_b@.len() == b@.len(),
        of_a@[i] < order@.len() && order@[of_a@[i] as int]@ == a@[i]@,
        of_b@[j] < order@.len() && order@[of_b@[j] as int]@ == b@[j]@,
        of_a@[i] == of_b@[j] <==> a@[i]@ == b@[j]@,
{
    let names = texts(order@);
    lemma_joint(texts(a@), texts(b@));
    assert(texts(a@)[i] == a@[i]@ && texts(b@)[j] == b@[j]@);
    assert(names.contains(texts(a@)[i]) && names.contains(texts(b@)[j]));
    lemma_rank(names, a@[i]@);
    lemma_rank(names, b@[j]@);
    assert(names[rank(names, a@[i]@) as int] == order@[rank(names, a@[i]@) as int]@);
    assert(names[rank(names, b@[j]@) as int] == order@[rank(names, b@[j]@) as int]@);
}

} // verus!
