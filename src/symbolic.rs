use vstd::prelude::*;
use crate::path::{Path, PathModel};
use vstd::slice::slice_subrange;

verus! {

/// Types of which a path can produce a fresh, unconstrained instance.
pub trait Symbolic: Sized {
    /// How many raw values of the path one fresh instance takes.
    spec fn draws() -> nat;

    /// `self` is the value that the raw values `d` make.
    spec fn made_from(self, d: Seq<u128>) -> bool;

    /// A fresh instance, taken from the next raw values of `path` and recorded
    /// there under `desc`. The description only names the value: it plays no
    /// part in which value comes out.
    fn symbolic(path: &mut Path, desc: &'static str) -> (r: Self)
        requires
            old(path).wf(),
        ensures
            final(path).wf(),
            final(path)@ == old(path)@.after_draws(Self::draws(), desc),
            r.made_from(old(path)@.upcoming(Self::draws())),
    ;
}

proof fn lemma_upcoming_one(p: PathModel)
    ensures
        p.upcoming(1)[0] == p.next_raw(),
{
}

/// A fresh 8-bit value.
fn symbolic_u8(path: &mut Path, desc: &'static str) -> (r: u8)
    requires
        old(path).wf(),
    ensures
        final(path).wf(),
        final(path)@ == old(path)@.after_draws(1, desc),
        r == old(path)@.next_raw() as u8,
{
    path.draw(desc) as u8
}

/// A fresh 16-bit value.
fn symbolic_u16(path: &mut Path, desc: &'static str) -> (r: u16)
    requires
        old(path).wf(),
    ensures
        final(path).wf(),
        final(path)@ == old(path)@.after_draws(1, desc),
        r == old(path)@.next_raw() as u16,
{
    path.draw(desc) as u16
}

/// A fresh 32-bit value.
fn symbolic_u32(path: &mut Path, desc: &'static str) -> (r: u32)
    requires
        old(path).wf(),
    ensures
        final(path).wf(),
        final(path)@ == old(path)@.after_draws(1, desc),
        r == old(path)@.next_raw() as u32,
{
    path.draw(desc) as u32
}

/// A fresh 64-bit value.
fn symbolic_u64(path: &mut Path, desc: &'static str) -> (r: u64)
    requires
        old(path).wf(),
    ensures
        final(path).wf(),
        final(path)@ == old(path)@.after_draws(1, desc),
        r == old(path)@.next_raw() as u64,
{
    path.draw(desc) as u64
}

/// A fresh 128-bit value.
fn symbolic_u128(path: &mut Path, desc: &'static str) -> (r: u128)
    requires
        old(path).wf(),
    ensures
        final(path).wf(),
        final(path)@ == old(path)@.after_draws(1, desc),
        r == old(path)@.next_raw(),
{
    path.draw(desc)
}

impl Symbolic for u8 {
    open spec fn draws() -> nat {
        1
    }

    open spec fn made_from(self, d: Seq<u128>) -> bool {
        self == d[0] as u8
    }

    fn symbolic(path: &mut Path, desc: &'static str) -> (r: u8) {
        proof { lemma_upcoming_one(path@); }
        symbolic_u8(path, desc)
    }
}

impl Symbolic for u16 {
    open spec fn draws() -> nat {
        1
    }

    open spec fn made_from(self, d: Seq<u128>) -> bool {
        self == d[0] as u16
    }

    fn symbolic(path: &mut Path, desc: &'static str) -> (r: u16) {
        proof { lemma_upcoming_one(path@); }
        symbolic_u16(path, desc)
    }
}

impl Symbolic for u32 {
    open spec fn draws() -> nat {
        1
    }

    open spec fn made_from(self, d: Seq<u128>) -> bool {
        self == d[0] as u32
    }

    fn symbolic(path: &mut Path, desc: &'static str) -> (r: u32) {
        proof { lemma_upcoming_one(path@); }
        symbolic_u32(path, desc)
    }
}

impl Symbolic for u64 {
    open spec fn draws() -> nat {
        1
    }

    open spec fn made_from(self, d: Seq<u128>) -> bool {
        self == d[0] as u64
    }

    fn symbolic(path: &mut Path, desc: &'static str) -> (r: u64) {
        proof { lemma_upcoming_one(path@); }
        symbolic_u64(path, desc)
    }
}

impl Symbolic for u128 {
    open spec fn draws() -> nat {
        1
    }

    open spec fn made_from(self, d: Seq<u128>) -> bool {
        self == d[0]
    }

    fn symbolic(path: &mut Path, desc: &'static str) -> (r: u128) {
        proof { lemma_upcoming_one(path@); }
        symbolic_u128(path, desc)
    }
}

/// The pointer-sized value takes the fixed width that equals the target's
/// pointer width, and is that value unchanged.
impl Symbolic for usize {
    open spec fn draws() -> nat {
        1
    }

    open spec fn made_from(self, d: Seq<u128>) -> bool {
        self as int == d[0] as int % (usize::MAX as int + 1)
    }

    fn symbolic(path: &mut Path, desc: &'static str) -> (r: usize) {
        proof { lemma_upcoming_one(path@); }
        let ghost x = path@.next_raw();
        if usize::MAX as u128 == u64::MAX as u128 {
            let v = <u64 as Symbolic>::symbolic(path, desc);
            assert((x as u64) as u128 == x % 0x1_0000_0000_0000_0000u128) by (bit_vector);
            v as usize
        } else {
            let v = <u32 as Symbolic>::symbolic(path, desc);
            assert((x as u32) as u128 == x % 0x1_0000_0000u128) by (bit_vector);
            v as usize
        }
    }
}

/// A signed value is an unsigned value of the same width, its bits read
/// in two's complement.
impl Symbolic for i8 {
    open spec fn draws() -> nat {
        1
    }

    open spec fn made_from(self, d: Seq<u128>) -> bool {
        self == (d[0] as u8) as i8
    }

    fn symbolic(path: &mut Path, desc: &'static str) -> (r: i8) {
        <u8 as Symbolic>::symbolic(path, desc) as i8
    }
}

impl Symbolic for i16 {
    open spec fn draws() -> nat {
        1
    }

    open spec fn made_from(self, d: Seq<u128>) -> bool {
        self == (d[0] as u16) as i16
    }

    fn symbolic(path: &mut Path, desc: &'static str) -> (r: i16) {
        <u16 as Symbolic>::symbolic(path, desc) as i16
    }
}

impl Symbolic for i32 {
    open spec fn draws() -> nat {
        1
    }

    open spec fn made_from(self, d: Seq<u128>) -> bool {
        self == (d[0] as u32) as i32
    }

    fn symbolic(path: &mut Path, desc: &'static str) -> (r: i32) {
        <u32 as Symbolic>::symbolic(path, desc) as i32
    }
}

impl Symbolic for i64 {
    open spec fn draws() -> nat {
        1
    }

    open spec fn made_from(self, d: Seq<u128>) -> bool {
        self == (d[0] as u64) as i64
    }

    fn symbolic(path: &mut Path, desc: &'static str) -> (r: i64) {
        <u64 as Symbolic>::symbolic(path, desc) as i64
    }
}

impl Symbolic for i128 {
    open spec fn draws() -> nat {
        1
    }

    open spec fn made_from(self, d: Seq<u128>) -> bool {
        self == d[0] as i128
    }

    fn symbolic(path: &mut Path, desc: &'static str) -> (r: i128) {
        <u128 as Symbolic>::symbolic(path, desc) as i128
    }
}

impl Symbolic for isize {
    open spec fn draws() -> nat {
        1
    }

    open spec fn made_from(self, d: Seq<u128>) -> bool {
        self == ((d[0] as int % (usize::MAX as int + 1)) as usize) as isize
    }

    fn symbolic(path: &mut Path, desc: &'static str) -> (r: isize) {
        <usize as Symbolic>::symbolic(path, desc) as isize
    }
}

/// The raw values that the `j`-th of a run of instances, each taking `k`
/// raw values, is made from, counted from the state `p`.
pub open spec fn segment(p: PathModel, j: int, k: nat) -> Seq<u128> {
    Seq::new(k, |t: int| p.choice_at(p.trace.len() + j * k + t))
}

/// Drawing `a` values and then `b` more is drawing `a + b`.
proof fn lemma_after_draws_twice(p: PathModel, a: nat, b: nat, desc: &'static str)
    ensures
        p.after_draws(a, desc).after_draws(b, desc) == p.after_draws(a + b, desc),
{
    let q = p.after_draws(a, desc);
    assert(q.trace.len() == p.trace.len() + a);
    assert(q.after_draws(b, desc).trace =~= p.after_draws(a + b, desc).trace);
}

/// Each element of a fixed-size array is a fresh instance of its own: the
/// elements take consecutive, disjoint runs of raw values.
impl<T: Symbolic + Copy, const N: usize> Symbolic for [T; N] {
    open spec fn draws() -> nat {
        if N == 0 {
            T::draws()
        } else {
            (N * T::draws()) as nat
        }
    }

    open spec fn made_from(self, d: Seq<u128>) -> bool {
        forall|i: int|
            0 <= i < N ==> #[trigger] self@[i].made_from(
                d.subrange(i * T::draws(), (i + 1) * T::draws()),
            )
    }

    fn symbolic(path: &mut Path, desc: &'static str) -> (r: [T; N]) {
        let ghost start = path@;
        let ghost k = T::draws();
        let first = T::symbolic(path, desc);
        proof {
            assert(start.upcoming(k) =~= segment(start, 0, k));
        }
        let mut arr = [first; N];
        let mut i: usize = 1;
        while i < N
            invariant
                k == T::draws(),
                N == 0 ==> i == 1,
                N > 0 ==> 1 <= i <= N,
                path.wf(),
                path@ == start.after_draws((i * k) as nat, desc),
                forall|j: int| 0 <= j < i && j < N ==> #[trigger] arr@[j].made_from(segment(start, j, k)),
            decreases N - i,
        {
            let ghost before = path@;
            let ghost old_arr = arr@;
            let v = T::symbolic(path, desc);
            proof {
                let a: nat = (i * k) as nat;
                assert(0 <= i * k) by (nonlinear_arith)
                    requires
                        0 <= i,
                ;
                assert(before.trace.len() == start.trace.len() + a);
                assert(v.made_from(before.upcoming(k)));
                assert(before.upcoming(k) =~= segment(start, i as int, k));
                assert(v.made_from(segment(start, i as int, k)));
                lemma_after_draws_twice(start, a, k, desc);
                assert(a + k == (i + 1) * k) by (nonlinear_arith)
                    requires
                        a == i * k,
                ;
                assert(path@ == start.after_draws(((i + 1) * k) as nat, desc));
            }
            arr[i] = v;
            proof {
                assert(arr@ == old_arr.update(i as int, v));
                assert(arr@[i as int].made_from(segment(start, i as int, k)));
            }
            i = i + 1;
        }
        proof {
            let total = Self::draws();
            assert forall|j: int| 0 <= j < N implies #[trigger] arr@[j].made_from(
                start.upcoming(total).subrange(j * k, (j + 1) * k),
            ) by {
                assert((j + 1) * k <= N * k) by (nonlinear_arith)
                    requires
                        0 <= j < N,
                ;
                assert(0 <= j * k) by (nonlinear_arith)
                    requires
                        0 <= j,
                ;
                assert(j * k + k == (j + 1) * k) by (nonlinear_arith);
                assert(start.upcoming(total).subrange(j * k, (j + 1) * k) =~= segment(start, j, k));
            }
        }
        arr
    }
}

/// The length that `prefix` draws on a path in state `p`.
pub open spec fn prefix_len(p: PathModel) -> int {
    p.next_raw() as int % (usize::MAX as int + 1)
}

/// A leading part of `xs` whose length is symbolic: the length is drawn from
/// `path` under the description "prefix_len", and the path is narrowed to the
/// lengths that fit in `xs`. On a path that this, or anything before, has
/// killed, there is no result.
pub fn prefix<'a, T>(path: &mut Path, xs: &'a [T]) -> (r: Option<&'a [T]>)
    requires
        old(path).wf(),
    ensures
        final(path).wf(),
        final(path)@ == old(path)@.after_draws(1, "prefix_len").after_condition(
            prefix_len(old(path)@) <= xs@.len(),
        ),
        r is Some <==> final(path)@.feasible(),
        r matches Some(s) ==> s@ == xs@.subrange(0, prefix_len(old(path)@)),
{
    let ghost start = path@;
    let len = <usize as Symbolic>::symbolic(path, "prefix_len");
    proof {
        assert(start.upcoming(1)[0] == start.next_raw());
    }
    path.add_condition(len <= xs.len());
    if path.is_feasible() {
        proof {
            let c = path@.conditions;
            assert(c[c.len() - 1]);
        }
        Some(slice_subrange(xs, 0, len))
    } else {
        None
    }
}

/// On every path that survives `prefix`, the length kept is at most the length
/// of the sequence; and every such length is kept on some path.
pub proof fn lemma_prefix_lengths(p: PathModel, n: nat)
    requires
        n <= usize::MAX,
    ensures
        p.after_draws(1, "prefix_len").after_condition(prefix_len(p) <= n).feasible() ==> 0
            <= prefix_len(p) <= n,
        forall|l: nat|
            l <= n ==> {
                let q = #[trigger] PathModel::fresh(seq![l as u128]);
                &&& q.after_draws(1, "prefix_len").after_condition(prefix_len(q) <= n).feasible()
                &&& prefix_len(q) == l
            },
{
    let q0 = p.after_draws(1, "prefix_len").after_condition(prefix_len(p) <= n);
    if q0.feasible() {
        assert(q0.conditions[q0.conditions.len() - 1]);
    }
    assert forall|l: nat| l <= n implies {
        let q = #[trigger] PathModel::fresh(seq![l as u128]);
        &&& q.after_draws(1, "prefix_len").after_condition(prefix_len(q) <= n).feasible()
        &&& prefix_len(q) == l
    } by {
        let q = PathModel::fresh(seq![l as u128]);
        assert(q.next_raw() == l as u128);
        let q1 = q.after_draws(1, "prefix_len").after_condition(prefix_len(q) <= n);
        assert(q1.conditions =~= seq![prefix_len(q) <= n]);
    }
}

/// Once a path is dead, it stays dead: neither drawing values nor taking
/// conditions revives it, nor does anything else that only extends it.
pub proof fn lemma_dead_path_stays_dead(p: PathModel, q: PathModel)
    requires
        !p.feasible(),
    ensures
        forall|n: nat, desc: &'static str| !(#[trigger] p.after_draws(n, desc)).feasible(),
        forall|c: bool| !(#[trigger] p.after_condition(c)).feasible(),
        forall|n: nat, desc: &'static str| (#[trigger] p.after_draws(n, desc)).extends(p),
        forall|c: bool| (#[trigger] p.after_condition(c)).extends(p),
        q.extends(p) ==> !q.feasible(),
{
    let i = choose|i: int| 0 <= i < p.conditions.len() && !p.conditions[i];
    assert forall|c: bool| !(#[trigger] p.after_condition(c)).feasible() by {
        assert(!p.after_condition(c).conditions[i]);
    }
    assert forall|n: nat, desc: &'static str| (#[trigger] p.after_draws(n, desc)).extends(p) by {
        assert(p.after_draws(n, desc).trace.subrange(0, p.trace.len() as int) =~= p.trace);
        assert(p.conditions.subrange(0, p.conditions.len() as int) =~= p.conditions);
    }
    assert forall|c: bool| (#[trigger] p.after_condition(c)).extends(p) by {
        assert(p.trace.subrange(0, p.trace.len() as int) =~= p.trace);
        assert(p.after_condition(c).conditions.subrange(0, p.conditions.len() as int) =~= p.conditions);
    }
    if q.extends(p) {
        assert(q.conditions.subrange(0, p.conditions.len() as int)[i] == p.conditions[i]);
        assert(!q.conditions[i]);
    }
}

/// A signed value has the bits of the unsigned value of its width that the same
/// raw values make: it is a reinterpretation, so every signed value, negative
/// ones included, comes out of some raw values.
pub proof fn lemma_signed_is_unsigned_bits()
    ensures
        forall|v: i8, d: Seq<u128>| #[trigger] v.made_from(d) <==> (v as u8).made_from(d),
        forall|v: i16, d: Seq<u128>| #[trigger] v.made_from(d) <==> (v as u16).made_from(d),
        forall|v: i32, d: Seq<u128>| #[trigger] v.made_from(d) <==> (v as u32).made_from(d),
        forall|v: i64, d: Seq<u128>| #[trigger] v.made_from(d) <==> (v as u64).made_from(d),
        forall|v: i128, d: Seq<u128>| #[trigger] v.made_from(d) <==> (v as u128).made_from(d),
        forall|v: isize, d: Seq<u128>| #[trigger] v.made_from(d) <==> (v as usize).made_from(d),
{
    assert forall|v: i8, d: Seq<u128>| #[trigger] v.made_from(d) <==> (v as u8).made_from(d) by {
        let x = d[0];
        assert(v == (x as u8) as i8 <==> v as u8 == x as u8) by (bit_vector);
    }
    assert forall|v: i16, d: Seq<u128>| #[trigger] v.made_from(d) <==> (v as u16).made_from(d) by {
        let x = d[0];
        assert(v == (x as u16) as i16 <==> v as u16 == x as u16) by (bit_vector);
    }
    assert forall|v: i32, d: Seq<u128>| #[trigger] v.made_from(d) <==> (v as u32).made_from(d) by {
        let x = d[0];
        assert(v == (x as u32) as i32 <==> v as u32 == x as u32) by (bit_vector);
    }
    assert forall|v: i64, d: Seq<u128>| #[trigger] v.made_from(d) <==> (v as u64).made_from(d) by {
        let x = d[0];
        assert(v == (x as u64) as i64 <==> v as u64 == x as u64) by (bit_vector);
    }
    assert forall|v: i128, d: Seq<u128>| #[trigger] v.made_from(d) <==> (v as u128).made_from(d) by {
        let x = d[0];
        assert(v == x as i128 <==> v as u128 == x) by (bit_vector);
    }
    assert forall|v: isize, d: Seq<u128>| #[trigger] v.made_from(d) <==> (v as usize).made_from(d) by {
        let y = (d[0] as int % (usize::MAX as int + 1)) as usize;
        assert(y as int == d[0] as int % (usize::MAX as int + 1));
        assert(v == y as isize <==> v as usize == y) by (bit_vector);
    }
}

/// In an array of two or more fresh instances, the first two elements are not
/// tied together: where the element type has two raw inputs that give distinct
/// values, some path gives the two elements distinct values.
pub proof fn lemma_array_elements_independent<T: Symbolic + Copy, const N: usize>(
    d1: Seq<u128>,
    d2: Seq<u128>,
)
    requires
        N >= 2,
        d1.len() == T::draws(),
        d2.len() == T::draws(),
        forall|v: T, w: T| v.made_from(d1) && w.made_from(d2) ==> v != w,
    ensures
        exists|c: Seq<u128>|
            #![trigger PathModel::fresh(c)]
            forall|a: [T; N]| #[trigger]
                a.made_from(PathModel::fresh(c).upcoming(<[T; N] as Symbolic>::draws()))
                    ==> a@[0] != a@[1],
{
    let k: int = T::draws() as int;
    let total = <[T; N] as Symbolic>::draws();
    assert(2 * k <= N * k) by (nonlinear_arith)
        requires
            N >= 2,
            k >= 0,
    ;
    let c = d1 + d2 + Seq::new((total - 2 * k) as nat, |t: int| 0u128);
    assert(total == N * k);
    let up = PathModel::fresh(c).upcoming(total);
    assert(up =~= c);
    assert(up.subrange(0 * k, (0 + 1) * k) =~= d1);
    assert(up.subrange(1 * k, (1 + 1) * k) =~= d2);
    assert forall|a: [T; N]| #[trigger] a.made_from(up) implies a@[0] != a@[1] by {
        assert(a@[0].made_from(up.subrange(0 * k, (0 + 1) * k)));
        assert(a@[1].made_from(up.subrange(1 * k, (1 + 1) * k)));
    }
}

} // verus!
