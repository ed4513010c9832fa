use vstd::prelude::*;
use crate::step::Step;

verus! {

/// Output width of the last affine layer among the first `n` steps, or zero
/// when none of them is a layer. This is the width that the next layer must
/// accept; zero means that no width has been established yet.
pub open spec fn outputs_before(steps: Seq<Step>, n: int) -> nat
    decreases n,
{
    if n <= 0 {
        0
    } else {
        match steps[n - 1] {
            Step::LinearLayer(l) => l.number_of_outputs as nat,
            _ => outputs_before(steps, n - 1),
        }
    }
}

/// The step at `k` is a layer whose declared input width disagrees with a
/// width established by an earlier layer.
pub open spec fn mismatch_at(steps: Seq<Step>, k: int) -> bool {
    &&& 0 <= k < steps.len()
    &&& match steps[k] {
        Step::LinearLayer(l) => outputs_before(steps, k) != 0 && outputs_before(steps, k)
            != l.number_of_inputs,
        _ => false,
    }
}

/// Every layer accepts the width that the layers before it produce.
pub open spec fn chain_ok(steps: Seq<Step>) -> bool {
    forall|k: int| 0 <= k < steps.len() ==> !#[trigger] mismatch_at(steps, k)
}

/// `k` is the first position at which the chain breaks.
pub open spec fn first_mismatch(steps: Seq<Step>, k: int) -> bool {
    &&& mismatch_at(steps, k)
    &&& forall|m: int| 0 <= m < k ==> !#[trigger] mismatch_at(steps, m)
}

/// Width of the values leaving the first `n` steps when `width` values
/// enter the first one, or `None` when some layer among them is handed a
/// width other than the one it declares.
pub open spec fn width_after(steps: Seq<Step>, width: nat, n: int) -> Option<nat>
    decreases n,
{
    if n <= 0 {
        Some(width)
    } else {
        match width_after(steps, width, n - 1) {
            None => None,
            Some(w) => match steps[n - 1] {
                Step::LinearLayer(l) => if w == l.number_of_inputs {
                    Some(l.number_of_outputs as nat)
                } else {
                    None
                },
                _ => Some(w),
            },
        }
    }
}

/// Number of affine layers among the first `n` steps.
pub open spec fn count_layers(steps: Seq<Step>, n: int) -> nat
    decreases n,
{
    if n <= 0 {
        0
    } else {
        count_layers(steps, n - 1) + if steps[n - 1] is LinearLayer {
            1nat
        } else {
            0nat
        }
    }
}

pub open spec fn layer_inputs(s: Step) -> nat {
    match s {
        Step::LinearLayer(l) => l.number_of_inputs as nat,
        _ => 0,
    }
}

pub open spec fn layer_outputs(s: Step) -> nat {
    match s {
        Step::LinearLayer(l) => l.number_of_outputs as nat,
        _ => 0,
    }
}

/// Positions `j < k` hold layers with only activations between them.
pub open spec fn adjacent_layers(steps: Seq<Step>, j: int, k: int) -> bool {
    &&& 0 <= j < k < steps.len()
    &&& steps[j] is LinearLayer
    &&& steps[k] is LinearLayer
    &&& forall|m: int| j < m < k ==> !(#[trigger] steps[m] is LinearLayer)
}

/// `j` holds the last layer of the sequence.
pub open spec fn last_layer(steps: Seq<Step>, j: int) -> bool {
    &&& 0 <= j < steps.len()
    &&& steps[j] is LinearLayer
    &&& forall|m: int| j < m < steps.len() ==> !(#[trigger] steps[m] is LinearLayer)
}

/// Finds the last layer before position `n`; `-1` when there is none.
proof fn last_layer_before(steps: Seq<Step>, n: int) -> (j: int)
    requires
        0 <= n <= steps.len(),
    ensures
        -1 <= j < n,
        j >= 0 ==> steps[j] is LinearLayer,
        forall|m: int| j < m < n ==> !(#[trigger] steps[m] is LinearLayer),
        j == -1 ==> outputs_before(steps, n) == 0,
        j >= 0 ==> outputs_before(steps, n) == layer_outputs(steps[j]),
    decreases n,
{
    if n == 0 {
        -1
    } else if steps[n - 1] is LinearLayer {
        n - 1
    } else {
        last_layer_before(steps, n - 1)
    }
}

/// When every layer accepts exactly the width that the layer before it
/// produces, the chain holds, and the width it ends with is the output width
/// of the last layer (zero when there is no layer).
pub proof fn lemma_matching_widths_accepted(steps: Seq<Step>)
    requires
        forall|j: int, k: int|
            #[trigger] adjacent_layers(steps, j, k) ==> layer_inputs(steps[k]) == layer_outputs(
                steps[j],
            ),
    ensures
        chain_ok(steps),
        forall|j: int|
            #[trigger] last_layer(steps, j) ==> outputs_before(steps, steps.len() as int)
                == layer_outputs(steps[j]),
        (forall|m: int| 0 <= m < steps.len() ==> !(#[trigger] steps[m] is LinearLayer))
            ==> outputs_before(steps, steps.len() as int) == 0,
{
    assert forall|k: int| 0 <= k < steps.len() implies !#[trigger] mismatch_at(steps, k) by {
        let j = last_layer_before(steps, k);
        if j >= 0 && steps[k] is LinearLayer {
            assert(adjacent_layers(steps, j, k));
        }
    }
    let last = last_layer_before(steps, steps.len() as int);
    assert forall|j: int| #[trigger] last_layer(steps, j) implies outputs_before(
        steps,
        steps.len() as int,
    ) == layer_outputs(steps[j]) by {
        if last != j {
            if last < j {
                assert(!(steps[j] is LinearLayer));
            } else {
                assert(!(steps[last] is LinearLayer));
            }
        }
    }
    if last >= 0 {
        assert(steps[last] is LinearLayer);
    }
}

/// In a chain that holds, a layer that follows another with only
/// activations between them accepts the width that the earlier one produces,
/// unless that width is zero.
pub proof fn lemma_chain_links_adjacent_layers(steps: Seq<Step>, j: int, k: int)
    requires
        chain_ok(steps),
        adjacent_layers(steps, j, k),
        layer_outputs(steps[j]) != 0,
    ensures
        layer_inputs(steps[k]) == layer_outputs(steps[j]),
{
    let p = last_layer_before(steps, k);
    if p != j {
        if p < j {
            assert(!(steps[j] is LinearLayer));
        } else {
            assert(!(steps[p] is LinearLayer));
        }
    }
    assert(!mismatch_at(steps, k));
}

/// When the first pair of neighbouring layers whose widths disagree is at
/// `(j, k)`, and the layer at `j` declares a nonzero output width, the chain
/// first breaks at `k`, and the width expected there is the output width of
/// the layer at `j`.
pub proof fn lemma_mismatched_pair_rejected(steps: Seq<Step>, j: int, k: int)
    requires
        adjacent_layers(steps, j, k),
        layer_inputs(steps[k]) != layer_outputs(steps[j]),
        layer_outputs(steps[j]) != 0,
        forall|a: int, b: int|
            #[trigger] adjacent_layers(steps, a, b) && b < k ==> layer_inputs(steps[b])
                == layer_outputs(steps[a]),
    ensures
        first_mismatch(steps, k),
        !chain_ok(steps),
        outputs_before(steps, k) == layer_outputs(steps[j]),
{
    let p = last_layer_before(steps, k);
    if p != j {
        if p < j {
            assert(!(steps[j] is LinearLayer));
        } else {
            assert(!(steps[p] is LinearLayer));
        }
    }
    assert forall|m: int| 0 <= m < k implies !#[trigger] mismatch_at(steps, m) by {
        let q = last_layer_before(steps, m);
        if q >= 0 && steps[m] is LinearLayer {
            assert(adjacent_layers(steps, q, m));
        }
    }
    assert(mismatch_at(steps, k));
}

} // verus!
