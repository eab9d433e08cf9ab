//! Boolean logic of gates, and the position state of switches and logic
//! inputs.
use vstd::prelude::*;
use crate::kinds::GateFn;

verus! {

/// All inputs are high.
pub open spec fn all_high(inputs: Seq<bool>) -> bool {
    forall|i: int| 0 <= i < inputs.len() ==> #[trigger] inputs[i]
}

/// Some input is high.
pub open spec fn any_high(inputs: Seq<bool>) -> bool {
    exists|i: int| 0 <= i < inputs.len() && #[trigger] inputs[i]
}

/// An odd number of inputs is high.
pub open spec fn odd_high(inputs: Seq<bool>) -> bool
    decreases inputs.len(),
{
    if inputs.len() == 0 {
        false
    } else {
        odd_high(inputs.drop_last()) != inputs.last()
    }
}

/// Value of gate function `op` over `inputs`.
pub open spec fn gate_function(op: GateFn, inputs: Seq<bool>) -> bool {
    match op {
        GateFn::And => all_high(inputs),
        GateFn::Or => any_high(inputs),
        GateFn::Xor => odd_high(inputs),
    }
}

/// Output of a gate: its function of the input levels, negated when the
/// gate is inverting.
pub fn gate_output(op: GateFn, inverting: bool, inputs: &Vec<bool>) -> (r: bool)
    ensures
        r == (gate_function(op, inputs@) != inverting),
{
    let mut f = match op {
        GateFn::And => true,
        _ => false,
    };
    let mut i: usize = 0;
    while i < inputs.len()
        invariant
            i <= inputs@.len(),
            f == gate_function(op, inputs@.take(i as int)),
        decreases inputs@.len() - i,
    {
        let ghost pre = inputs@.take(i as int);
        let ghost next = inputs@.take(i + 1);
        proof {
            assert(next.drop_last() =~= pre);
            assert(next.last() == inputs@[i as int]);
            if op is And {
                if all_high(next) {
                    assert forall|j: int| 0 <= j < pre.len() implies #[trigger] pre[j] by {
                        assert(next[j] == pre[j]);
                    }
                }
                if all_high(pre) && inputs@[i as int] {
                    assert forall|j: int| 0 <= j < next.len() implies #[trigger] next[j] by {
                        if j < pre.len() {
                            assert(next[j] == pre[j]);
                        }
                    }
                }
                if !inputs@[i as int] {
                    assert(!next[i as int]);
                }
            } else if op is Or {
                if any_high(next) {
                    let j = choose|j: int| 0 <= j < next.len() && #[trigger] next[j];
                    if j < pre.len() {
                        assert(pre[j]);
                    }
                }
                if any_high(pre) {
                    let j = choose|j: int| 0 <= j < pre.len() && #[trigger] pre[j];
                    assert(next[j]);
                }
                if inputs@[i as int] {
                    assert(next[i as int]);
                }
            }
        }
        let x = inputs[i];
        f = match op {
            GateFn::And => f && x,
            GateFn::Or => f || x,
            GateFn::Xor => f != x,
        };
        i = i + 1;
    }
    proof {
        assert(inputs@.take(inputs@.len() as int) =~= inputs@);
    }
    if inverting {
        f = !f;
    }
    f
}

/// Next position of a switch or logic input when it is clicked: one on,
/// back to 0 after the last.
pub open spec fn next_position(position: i32, pos_count: i32) -> i32 {
    if position + 1 >= pos_count { 0 } else { (position + 1) as i32 }
}

/// A position forced into `0..pos_count`.
pub open spec fn clamp_position(p: i32, pos_count: i32) -> i32 {
    if p < 0 { 0 } else if p > pos_count - 1 { (pos_count - 1) as i32 } else { p }
}

/// Position of a multi-position control (switch or logic input).
#[derive(Clone, Copy, Debug)]
pub struct Selector {
    pub position: i32,
    pub pos_count: i32,
}

impl Selector {
    /// Moves to the next position, wrapping around.
    pub fn toggle(&mut self)
        requires
            old(self).position < i32::MAX,
        ensures
            final(self).position == next_position(old(self).position, old(self).pos_count),
            final(self).pos_count == old(self).pos_count,
    {
        self.position = self.position + 1;
        if self.position >= self.pos_count {
            self.position = 0;
        }
    }

    /// Sets the position, clamped to the valid ones.
    pub fn set_position(&mut self, p: i32)
        requires
            old(self).pos_count >= 1,
        ensures
            final(self).position == clamp_position(p, old(self).pos_count),
            final(self).pos_count == old(self).pos_count,
    {
        let hi = self.pos_count - 1;
        self.position = if p < 0 {
            0
        } else if p > hi {
            hi
        } else {
            p
        };
    }
}

/// A click keeps a valid position valid.
pub proof fn lemma_next_position_in_range(p: i32, pos_count: i32)
    requires
        0 <= p < pos_count,
    ensures
        0 <= next_position(p, pos_count) < pos_count,
{
}

/// Position `p` after `k` clicks.
pub open spec fn clicks(p: i32, pos_count: i32, k: nat) -> i32
    decreases k,
{
    if k == 0 {
        p
    } else {
        next_position(clicks(p, pos_count, (k - 1) as nat), pos_count)
    }
}

/// Clicking a control as many times as it has positions brings it back to
/// where it was, from any valid position.
pub proof fn lemma_clicks_cycle(p: i32, pos_count: i32)
    requires
        0 <= p < pos_count,
    ensures
        clicks(p, pos_count, pos_count as nat) == p,
{
    lemma_clicks_prefix(p, pos_count, (pos_count - p) as nat);
    assert(clicks(p, pos_count, (pos_count - p) as nat) == 0);
    lemma_clicks_from_zero(p, pos_count, p as nat);
    lemma_clicks_add(p, pos_count, (pos_count - p) as nat, p as nat);
}

proof fn lemma_clicks_prefix(p: i32, pos_count: i32, k: nat)
    requires
        0 <= p < pos_count,
        1 <= k <= pos_count - p,
    ensures
        clicks(p, pos_count, k) == (if p + k >= pos_count { 0 } else { p + k }),
    decreases k,
{
    if k > 1 {
        lemma_clicks_prefix(p, pos_count, (k - 1) as nat);
    } else {
        assert(clicks(p, pos_count, 0) == p);
    }
}

proof fn lemma_clicks_from_zero(p: i32, pos_count: i32, k: nat)
    requires
        0 <= k < pos_count,
    ensures
        clicks(0, pos_count, k) == k,
    decreases k,
{
    if k > 0 {
        lemma_clicks_from_zero(p, pos_count, (k - 1) as nat);
    }
}

proof fn lemma_clicks_add(p: i32, pos_count: i32, a: nat, b: nat)
    ensures
        clicks(p, pos_count, a + b) == clicks(clicks(p, pos_count, a), pos_count, b),
    decreases b,
{
    if b > 0 {
        lemma_clicks_add(p, pos_count, a, (b - 1) as nat);
        assert((a + b) as nat - 1 == a + (b - 1) as nat);
    }
}

/// Label of a logic input: `0`, `1` or `2` when ternary or numeric
/// (flags 1 or 2), else `L` or `H`.
pub open spec fn input_tag_spec(flags: i32, position: i32) -> Seq<char> {
    if flags & 3 != 0 {
        if position == 0 { "0"@ } else if position == 1 { "1"@ } else { "2"@ }
    } else if position == 0 {
        "L"@
    } else {
        "H"@
    }
}

/// Label of a logic input at `position`.
pub fn input_tag(flags: i32, position: i32) -> (r: &'static str)
    ensures
        r@ == input_tag_spec(flags, position),
{
    if (flags & 3) != 0 {
        if position == 0 {
            "0"
        } else if position == 1 {
            "1"
        } else {
            "2"
        }
    } else if position == 0 {
        "L"
    } else {
        "H"
    }
}


/// What a gate computes, input by input: with no inputs AND is high and OR
/// and XOR are low; one more input is ANDed, ORed or XORed with the result
/// of the others.
pub proof fn lemma_gate_function_steps(inputs: Seq<bool>, x: bool)
    ensures
        gate_function(GateFn::And, Seq::empty()),
        !gate_function(GateFn::Or, Seq::empty()),
        !gate_function(GateFn::Xor, Seq::empty()),
        gate_function(GateFn::And, inputs.push(x)) == (gate_function(GateFn::And, inputs) && x),
        gate_function(GateFn::Or, inputs.push(x)) == (gate_function(GateFn::Or, inputs) || x),
        gate_function(GateFn::Xor, inputs.push(x)) == (gate_function(GateFn::Xor, inputs) != x),
{
    let n = inputs.push(x);
    assert(n.drop_last() =~= inputs);
    if all_high(n) {
        assert forall|i: int| 0 <= i < inputs.len() implies #[trigger] inputs[i] by {
            assert(n[i] == inputs[i]);
        }
        assert(n[inputs.len() as int] == x);
    }
    if all_high(inputs) && x {
        assert forall|i: int| 0 <= i < n.len() implies #[trigger] n[i] by {
            if i < inputs.len() {
                assert(n[i] == inputs[i]);
            }
        }
    }
    if any_high(n) {
        let i = choose|i: int| 0 <= i < n.len() && #[trigger] n[i];
        if i < inputs.len() {
            assert(inputs[i]);
        }
    }
    if any_high(inputs) {
        let i = choose|i: int| 0 <= i < inputs.len() && #[trigger] inputs[i];
        assert(n[i]);
    }
    if x {
        assert(n[inputs.len() as int]);
    }
}

} // verus!
