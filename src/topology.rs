//! The layer-topology planner: from a number of hidden layers and a base
//! unit width to the (input width, output width) of every linear layer.

use vstd::arithmetic::power2::{lemma2_to64, lemma2_to64_rest, lemma_pow2_pos, lemma_pow2_strictly_increases, pow2};
use vstd::prelude::*;

verus! {

/// Why a topology could not be planned.
#[derive(Debug, Clone, Copy, PartialEq, Eq)]
pub enum TopologyError {
    /// The number of hidden layers is not positive.
    InvalidTopology,
    /// The widest layer does not fit in an `i64`.
    WidthOverflow,
}

/// Exponents of two, at the input and at the output of hidden layer `i`
/// of a pyramid of `h` hidden layers: expansion, plateau, contraction.
pub open spec fn hidden_exponents(h: int, i: int) -> (int, int) {
    if i < h / 2 {
        (i, i + 1)
    } else if h % 2 == 1 && i == h / 2 {
        (i, i)
    } else {
        (h - i, h - i - 1)
    }
}

/// The width `2^e * units`.
pub open spec fn width(e: int, units: int) -> int {
    pow2(e as nat) * units
}

/// Hidden layer `i` of a pyramid of `h` hidden layers.
pub open spec fn hidden_pair(h: int, i: int, units: int) -> (int, int) {
    (width(hidden_exponents(h, i).0, units), width(hidden_exponents(h, i).1, units))
}

/// Every linear layer from input to output, for `h >= 1` hidden layers.
pub open spec fn topology(h: int, input: int, output: int, units: int) -> Seq<(int, int)> {
    if h == 1 {
        seq![(input, units), (units, output)]
    } else {
        seq![(input, units)] + Seq::new(h as nat, |i: int| hidden_pair(h, i, units)) + seq![
            (units, output),
        ]
    }
}

/// The widest layer, `2^(h/2) * units`, fits in an `i64`.
pub open spec fn widths_fit(h: int, units: int) -> bool {
    &&& pow2((h / 2) as nat) <= i64::MAX
    &&& i64::MIN <= pow2((h / 2) as nat) * units <= i64::MAX
}

/// The pairs of a planned topology, as mathematical integers.
pub open spec fn pairs_view(v: Seq<(i64, i64)>) -> Seq<(int, int)> {
    v.map_values(|p: (i64, i64)| (p.0 as int, p.1 as int))
}

proof fn lemma_exponent_bound(h: int, i: int)
    requires
        h >= 2,
        0 <= i < h,
    ensures
        0 <= hidden_exponents(h, i).0 <= h / 2,
        0 <= hidden_exponents(h, i).1 <= h / 2,
{
}

proof fn lemma_width_fits(e: int, h: int, units: int)
    requires
        0 <= e <= h / 2,
        widths_fit(h, units),
    ensures
        pow2(e as nat) <= i64::MAX,
        i64::MIN <= width(e, units) <= i64::MAX,
{
    let p = pow2(e as nat) as int;
    let q = pow2((h / 2) as nat) as int;
    lemma_pow2_pos(e as nat);
    if e < h / 2 {
        lemma_pow2_strictly_increases(e as nat, (h / 2) as nat);
    }
    assert(0 < p <= q);
    assert(i64::MIN <= p * units <= i64::MAX) by (nonlinear_arith)
        requires
            0 < p <= q,
            i64::MIN <= q * units <= i64::MAX,
    ;
}

/// `2^e`, for an exponent small enough that it fits.
fn pow2_i64(e: i64) -> (r: i64)
    requires
        0 <= e,
        pow2(e as nat) <= i64::MAX,
    ensures
        r == pow2(e as nat),
{
    let mut r: i64 = 1;
    let mut k: i64 = 0;
    proof {
        lemma2_to64();
    }
    while k < e
        invariant
            0 <= k <= e,
            r == pow2(k as nat),
            pow2(e as nat) <= i64::MAX,
        decreases e - k,
    {
        proof {
            if k + 1 < e {
                lemma_pow2_strictly_increases((k + 1) as nat, e as nat);
            }
            vstd::arithmetic::power2::lemma_pow2_unfold((k + 1) as nat);
        }
        r = r * 2;
        k = k + 1;
    }
    r
}

/// Plans the layers of a pyramidal network: `hidden_layers` hidden layers
/// of base width `units` between `input_dim` inputs and `output_dim` labels.
///
/// One hidden layer gives `[(input_dim, units), (units, output_dim)]`.
/// More give an input layer, `hidden_layers` layers whose widths double up
/// to the middle and halve back down, and an output layer.
pub fn plan(hidden_layers: i64, input_dim: i64, output_dim: i64, units: i64) -> (r: Result<
    Vec<(i64, i64)>,
    TopologyError,
>)
    ensures
        hidden_layers <= 0 ==> r == Err::<Vec<(i64, i64)>, TopologyError>(
            TopologyError::InvalidTopology,
        ),
        hidden_layers > 0 && !widths_fit(hidden_layers as int, units as int) ==> r == Err::<
            Vec<(i64, i64)>,
            TopologyError,
        >(TopologyError::WidthOverflow),
        hidden_layers > 0 && widths_fit(hidden_layers as int, units as int) ==> r is Ok
            && pairs_view(r->Ok_0@) == topology(
            hidden_layers as int,
            input_dim as int,
            output_dim as int,
            units as int,
        ),
{
    if hidden_layers <= 0 {
        return Err(TopologyError::InvalidTopology);
    }
    let h = hidden_layers;
    let half = h / 2;
    proof {
        lemma2_to64();
        lemma2_to64_rest();
        if half > 63 {
            lemma_pow2_strictly_increases(63, half as nat);
        } else if half < 62 {
            lemma_pow2_strictly_increases(half as nat, 62);
        }
    }
    if half > 62 {
        return Err(TopologyError::WidthOverflow);
    }
    let peak = pow2_i64(half);
    if peak.checked_mul(units).is_none() {
        return Err(TopologyError::WidthOverflow);
    }
    let ghost spec_topo = topology(h as int, input_dim as int, output_dim as int, units as int);
    if h == 1 {
        let r = vec![(input_dim, units), (units, output_dim)];
        assert(pairs_view(r@) =~= spec_topo);
        return Ok(r);
    }
    let mut layers: Vec<(i64, i64)> = Vec::new();
    layers.push((input_dim, units));
    let mut i: i64 = 0;
    while i < h
        invariant
            2 <= h,
            half == h / 2,
            0 <= i <= h,
            widths_fit(h as int, units as int),
            spec_topo == topology(h as int, input_dim as int, output_dim as int, units as int),
            pairs_view(layers@) =~= spec_topo.subrange(0, i + 1),
        decreases h - i,
    {
        let (e_in, e_out) = if i < half {
            (i, i + 1)
        } else if h % 2 == 1 && i == half {
            (i, i)
        } else {
            (h - i, h - i - 1)
        };
        proof {
            lemma_exponent_bound(h as int, i as int);
            lemma_width_fits(e_in as int, h as int, units as int);
            lemma_width_fits(e_out as int, h as int, units as int);
        }
        let w_in = pow2_i64(e_in) * units;
        let w_out = pow2_i64(e_out) * units;
        assert(spec_topo[i + 1] == hidden_pair(h as int, i as int, units as int));
        assert((w_in as int, w_out as int) == hidden_pair(h as int, i as int, units as int));
        let ghost prev = layers@;
        layers.push((w_in, w_out));
        assert(pairs_view(layers@) =~= pairs_view(prev).push(spec_topo[i + 1]));
        assert(spec_topo.subrange(0, i + 2) =~= spec_topo.subrange(0, i + 1).push(spec_topo[i + 1]));
        i = i + 1;
    }
    let ghost prev = layers@;
    layers.push((units, output_dim));
    assert(pairs_view(layers@) =~= pairs_view(prev).push(spec_topo[h + 1]));
    proof {
        lemma_pow2_pos(0);
    }
    assert(spec_topo[h + 1] == (units as int, output_dim as int));
    assert(spec_topo.subrange(0, h + 1).push(spec_topo[h + 1]) =~= spec_topo);
    Ok(layers)
}

/// With one hidden layer the topology is exactly
/// `[(input, units), (units, output)]`.
pub proof fn law_single_hidden_layer(input: int, output: int, units: int)
    ensures
        topology(1, input, output, units) == seq![(input, units), (units, output)],
{
}

/// With `h >= 2` hidden layers the topology has `h + 2` layers, each layer
/// feeds the next, and the hidden layers mirror each other about the
/// middle: the input width of hidden layer `i` is the output width of
/// hidden layer `h - 1 - i`, and the other way round.
pub proof fn law_pyramid_shape(h: int, input: int, output: int, units: int)
    requires
        h >= 2,
    ensures
        topology(h, input, output, units).len() == h + 2,
        forall|i: int|
            0 <= i < h + 1 ==> (#[trigger] topology(h, input, output, units)[i]).1 == topology(
                h,
                input,
                output,
                units,
            )[i + 1].0,
        forall|i: int|
            0 <= i < h ==> (#[trigger] topology(h, input, output, units)[i + 1]).0 == topology(
                h,
                input,
                output,
                units,
            )[h - i].1 && topology(h, input, output, units)[i + 1].1 == topology(
                h,
                input,
                output,
                units,
            )[h - i].0,
{
    let t = topology(h, input, output, units);
    lemma_pow2_pos(0);
    lemma2_to64();
    assert(pow2(0) == 1);
    assert(width(0, units) == pow2(0) * units);
    assert(width(0, units) == units);
    assert forall|i: int| 0 <= i < h + 1 implies (#[trigger] t[i]).1 == t[i + 1].0 by {
        if 0 < i < h {
            assert(hidden_exponents(h, i - 1).1 == hidden_exponents(h, i).0);
        }
    }
    assert forall|i: int| 0 <= i < h implies (#[trigger] t[i + 1]).0 == t[h - i].1 && t[i + 1].1
        == t[h - i].0 by {
        assert(hidden_exponents(h, i).0 == hidden_exponents(h, h - 1 - i).1);
        assert(hidden_exponents(h, i).1 == hidden_exponents(h, h - 1 - i).0);
    }
}

} // verus!
