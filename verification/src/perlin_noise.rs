//! Layered gradient noise: a stack of layers of differing resolution, each
//! with a weight, whose values add up to the value of the whole.

use vstd::prelude::*;
use rand::rngs::StdRng;
use crate::fixed::{div_floor, lemma_product_bound, Vec2, ONE};
use crate::layer::{
    blank_layer, layer_from_angles, layer_ok, layer_sample, layer_size_ok, lemma_layer_sample_range,
    lemma_zero_layer_sample, unit_gradients, GradientNoiseLayer, Vectors, LAYER_LIMIT,
};

verus! {

/// The content of a stack of layers: each layer's vectors and its weight.
pub type Stack = Seq<(Vectors, int)>;

/// The magnitude of an integer.
pub open spec fn magnitude(x: int) -> int {
    if x < 0 {
        -x
    } else {
        x
    }
}

/// The sum of the magnitudes of `weights`.
pub open spec fn total_weight(weights: Seq<int>) -> int
    decreases weights.len(),
{
    if weights.len() == 0 {
        0
    } else {
        total_weight(weights.drop_last()) + magnitude(weights.last())
    }
}

/// The weights of a stack of layers, in order.
pub open spec fn weights_of(layers: Stack) -> Seq<int> {
    Seq::new(layers.len(), |i: int| layers[i].1)
}

/// The sum over the layers of the layer's value at `(x, y)` times its weight.
pub open spec fn weighted_sum(layers: Stack, x: int, y: int) -> int
    decreases layers.len(),
{
    if layers.len() == 0 {
        0
    } else {
        weighted_sum(layers.drop_last(), x, y) + layer_sample(layers.last().0, x, y) * layers.last().1
    }
}

/// The value of a stack of weighted layers at `(x, y)`: the weighted sum of
/// the layers' values, brought back to scale.
pub open spec fn noise_sample(layers: Stack, x: int, y: int) -> int {
    weighted_sum(layers, x, y) / (ONE as int)
}

/// The largest total weight of a stack of layers: a hundred thousand.
pub const WEIGHT_LIMIT: i64 = 100_000_000_000;

/// The largest magnitude of a value of a stack of layers.
pub const SAMPLE_LIMIT: i64 = 282_843_200_000;

/// Whether `layers` is the content of a stack that can be sampled: every
/// layer is one, and the magnitudes of the weights sum to no more than
/// [`WEIGHT_LIMIT`].
pub open spec fn field_ok(layers: Stack) -> bool {
    &&& forall|i: int| 0 <= i < layers.len() ==> layer_ok(#[trigger] layers[i].0)
    &&& total_weight(weights_of(layers)) <= WEIGHT_LIMIT
}

/// The weights asked for by a list of layer sizes and weights.
pub open spec fn layout_weights(layout: Seq<((usize, usize), i64)>) -> Seq<int> {
    Seq::new(layout.len(), |i: int| layout[i].1 as int)
}

/// Whether a stack can be made from a list of layer sizes (width, then
/// height) and weights.
pub open spec fn layout_ok(layout: Seq<((usize, usize), i64)>) -> bool {
    &&& forall|i: int|
        0 <= i < layout.len() ==> layer_size_ok((#[trigger] layout[i]).0.0 as int, layout[i].0.1 as int)
    &&& total_weight(layout_weights(layout)) <= WEIGHT_LIMIT
}

/// Whether `after` has the layers of `before` in size and weight, each
/// holding the gradients for some list of angles.
pub open spec fn randomised_from(
    before: Stack,
    after: Stack,
) -> bool {
    &&& after.len() == before.len()
    &&& forall|i: int|
        0 <= i < before.len() ==> {
            &&& (#[trigger] after[i]).1 == before[i].1
            &&& unit_gradients(after[i].0)
            &&& exists|angles: Seq<u16>|
                angles.len() == before[i].0[0].len() * before[i].0.len() && after[i].0
                    == layer_from_angles(before[i].0[0].len(), before[i].0.len(), angles)
        }
}

/// The total weight of the first `i` weights is neither negative nor above
/// the total of all.
pub proof fn lemma_prefix_weight(weights: Seq<int>, i: int)
    requires
        0 <= i <= weights.len(),
    ensures
        0 <= total_weight(weights.take(i)) <= total_weight(weights),
        i < weights.len() ==> total_weight(weights.take(i + 1)) == total_weight(weights.take(i))
            + magnitude(weights[i]),
    decreases weights.len() - i,
{
    lemma_weight_not_negative(weights.take(i));
    if i == weights.len() {
        assert(weights.take(i) =~= weights);
    } else {
        assert(weights.take(i + 1).drop_last() =~= weights.take(i));
        lemma_prefix_weight(weights, i + 1);
    }
}

/// A total weight is not negative.
pub proof fn lemma_weight_not_negative(weights: Seq<int>)
    ensures
        0 <= total_weight(weights),
    decreases weights.len(),
{
    if weights.len() > 0 {
        lemma_weight_not_negative(weights.drop_last());
    }
}

/// The weighted sum of layers that can be sampled is bounded by the total
/// weight times the bound of a layer's value.
pub proof fn lemma_weighted_sum_range(layers: Stack, x: int, y: int)
    requires
        forall|i: int| 0 <= i < layers.len() ==> layer_ok(#[trigger] layers[i].0),
    ensures
        -2_828_432 * total_weight(weights_of(layers)) <= weighted_sum(layers, x, y) <= 2_828_432
            * total_weight(weights_of(layers)),
    decreases layers.len(),
{
    if layers.len() > 0 {
        let rest = layers.drop_last();
        let last = layers.last();
        assert(weights_of(layers).drop_last() =~= weights_of(rest));
        lemma_weighted_sum_range(rest, x, y);
        lemma_layer_sample_range(last.0, x, y);
        lemma_product_bound(layer_sample(last.0, x, y), last.1, 2_828_432, magnitude(last.1));
    }
}

/// The value of a stack that can be sampled is bounded at every point, so it
/// can be held in an `i64` without loss.
pub proof fn lemma_noise_sample_range(layers: Stack, x: int, y: int)
    requires
        field_ok(layers),
    ensures
        -SAMPLE_LIMIT <= noise_sample(layers, x, y) <= SAMPLE_LIMIT,
{
    lemma_weighted_sum_range(layers, x, y);
}

/// A field whose layers all have weight zero has the value zero everywhere.
pub proof fn lemma_weightless_sample(field: Stack, x: int, y: int)
    requires
        forall|i: int| 0 <= i < field.len() ==> (#[trigger] field[i]).1 == 0,
    ensures
        weighted_sum(field, x, y) == 0,
        noise_sample(field, x, y) == 0,
    decreases field.len(),
{
    if field.len() > 0 {
        let rest = field.drop_last();
        lemma_weightless_sample(rest, x, y);
    }
}

/// A field whose layers hold only zero vectors has the value zero everywhere.
pub proof fn lemma_zero_gradients_sample(field: Stack, x: int, y: int)
    requires
        forall|i: int| 0 <= i < field.len() ==> layer_ok(#[trigger] field[i].0),
        forall|i: int, r: int, c: int|
            0 <= i < field.len() && 0 <= r < field[i].0.len() && 0 <= c < field[i].0[0].len()
                ==> #[trigger] field[i].0[r][c] == (0int, 0int),
    ensures
        weighted_sum(field, x, y) == 0,
        noise_sample(field, x, y) == 0,
    decreases field.len(),
{
    if field.len() > 0 {
        let rest = field.drop_last();
        let last = field.last();
        lemma_zero_gradients_sample(rest, x, y);
        lemma_zero_layer_sample(last.0, x, y);
    }
}

/// A weighted stack of gradient noise layers of differing resolution.
pub struct PerlinNoise {
    vector_layers: Vec<(GradientNoiseLayer, i64)>,
}

impl View for PerlinNoise {
    type V = Stack;

    /// The layers in order, each with its weight.
    closed spec fn view(&self) -> Stack {
        Seq::new(
            self.vector_layers@.len(),
            |i: int| (self.vector_layers@[i].0@, self.vector_layers@[i].1 as int),
        )
    }
}

impl PerlinNoise {
    /// Whether every layer's tables are consistent.
    pub closed spec fn consistent(self) -> bool {
        forall|i: int|
            0 <= i < self.vector_layers@.len() ==> (#[trigger] self.vector_layers@[i]).0.consistent()
    }

    /// Whether the stack can be sampled.
    pub open spec fn wf(self) -> bool {
        self.consistent() && field_ok(self@)
    }

    /// A stack of layers with the given sizes (width, then height) and
    /// weights, whose vectors are all zero until [`Self::randomise`] fills
    /// them. There is none where a layer has no cells or is too large for
    /// memory, or where the magnitudes of the weights sum to more than
    /// [`WEIGHT_LIMIT`].
    pub fn blank(layers: Vec<((usize, usize), i64)>) -> (field: Option<Self>)
        ensures
            field is Some <==> layout_ok(layers@),
            field is Some ==> {
                let f = field->Some_0;
                &&& f.wf()
                &&& f@.len() == layers@.len()
                &&& forall|i: int|
                    0 <= i < layers@.len() ==> #[trigger] f@[i] == (
                        blank_layer(layers@[i].0.0 as nat, layers@[i].0.1 as nat),
                        layers@[i].1 as int,
                    )
            },
    {
        let ghost weights = layout_weights(layers@);
        let mut vector_layers: Vec<(GradientNoiseLayer, i64)> = Vec::new();
        let mut total: i64 = 0;
        let mut i: usize = 0;
        while i < layers.len()
            invariant
                i <= layers@.len(),
                weights == layout_weights(layers@),
                vector_layers@.len() == i,
                total == total_weight(weights.take(i as int)),
                0 <= total <= WEIGHT_LIMIT,
                forall|j: int|
                    0 <= j < i ==> layer_size_ok((#[trigger] layers@[j]).0.0 as int, layers@[j].0.1 as int),
                forall|j: int|
                    0 <= j < i ==> {
                        &&& (#[trigger] vector_layers@[j]).0.wf()
                        &&& vector_layers@[j].0@ == blank_layer(
                            layers@[j].0.0 as nat,
                            layers@[j].0.1 as nat,
                        )
                        &&& vector_layers@[j].1 == layers@[j].1
                    },
            decreases layers@.len() - i,
        {
            let width: usize = layers[i].0.0;
            let height: usize = layers[i].0.1;
            let weight: i64 = layers[i].1;
            proof {
                lemma_prefix_weight(weights, i as int);
                lemma_prefix_weight(weights, i + 1);
            }
            if weight > WEIGHT_LIMIT || weight < -WEIGHT_LIMIT {
                return None;
            }
            let size: i64 = if weight < 0 { -weight } else { weight };
            if total + size > WEIGHT_LIMIT {
                return None;
            }
            total = total + size;
            match GradientNoiseLayer::new(width, height) {
                None => {
                    return None;
                },
                Some(layer) => {
                    vector_layers.push((layer, weight));
                },
            }
            i = i + 1;
        }
        let field = PerlinNoise { vector_layers };
        proof {
            assert(weights.take(i as int) =~= weights);
            assert(weights_of(field@) =~= weights);
        }
        Some(field)
    }

    /// A stack of layers with the given sizes (width, then height) and
    /// weights, each filled with gradients for angles drawn from `rng`.
    pub fn new(layers: Vec<((usize, usize), i64)>, rng: &mut StdRng) -> (field: Option<Self>)
        ensures
            field is Some <==> layout_ok(layers@),
            field is Some ==> {
                let f = field->Some_0;
                &&& f.wf()
                &&& f@.len() == layers@.len()
                &&& forall|i: int|
                    0 <= i < layers@.len() ==> {
                        &&& (#[trigger] f@[i]).1 == layers@[i].1
                        &&& unit_gradients(f@[i].0)
                        &&& exists|angles: Seq<u16>|
                            angles.len() == layers@[i].0.0 * layers@[i].0.1 && f@[i].0
                                == layer_from_angles(
                                layers@[i].0.0 as nat,
                                layers@[i].0.1 as nat,
                                angles,
                            )
                    }
            },
    {
        match Self::blank(layers) {
            None => None,
            Some(mut perlin_noise) => {
                perlin_noise.randomise(rng);
                Some(perlin_noise)
            },
        }
    }

    /// Fills layer `layer` with the gradients for `angles`, one angle per
    /// cell, row by row. The other layers and all weights stay.
    pub fn set_angles(&mut self, layer: usize, angles: &Vec<u16>)
        requires
            old(self).wf(),
            layer < old(self)@.len(),
            angles@.len() == old(self)@[layer as int].0[0].len() * old(self)@[layer as int].0.len(),
        ensures
            final(self).wf(),
            final(self)@ == old(self)@.update(
                layer as int,
                (
                    layer_from_angles(
                        old(self)@[layer as int].0[0].len(),
                        old(self)@[layer as int].0.len(),
                        angles@,
                    ),
                    old(self)@[layer as int].1,
                ),
            ),
    {
        let entry = &mut self.vector_layers[layer];
        entry.0.set_angles(angles);
        proof {
            assert(weights_of(self@) =~= weights_of(old(self)@));
            assert(self@ =~= old(self)@.update(
                layer as int,
                (
                    layer_from_angles(
                        old(self)@[layer as int].0[0].len(),
                        old(self)@[layer as int].0.len(),
                        angles@,
                    ),
                    old(self)@[layer as int].1,
                ),
            ));
        }
    }

    /// Randomly orientates all vectors in all layers: every vector is
    /// replaced by the gradient for an angle drawn from `rng`, layer after
    /// layer. Sizes and weights stay.
    pub fn randomise(&mut self, rng: &mut StdRng)
        requires
            old(self).wf(),
        ensures
            final(self).wf(),
            randomised_from(old(self)@, final(self)@),
    {
        let count: usize = self.vector_layers.len();
        let mut i: usize = 0;
        while i < count
            invariant
                i <= count,
                count == self.vector_layers@.len(),
                count == old(self).vector_layers@.len(),
                old(self).wf(),
                forall|j: int|
                    i <= j < count ==> #[trigger] self.vector_layers@[j] == old(self).vector_layers@[j],
                forall|j: int|
                    0 <= j < i ==> {
                        &&& (#[trigger] self.vector_layers@[j]).0.wf()
                        &&& self.vector_layers@[j].1 == old(self).vector_layers@[j].1
                        &&& unit_gradients(self.vector_layers@[j].0@)
                        &&& exists|angles: Seq<u16>|
                            angles.len() == old(self).vector_layers@[j].0.spec_width() * old(
                                self,
                            ).vector_layers@[j].0.spec_height() && self.vector_layers@[j].0@
                                == layer_from_angles(
                                old(self).vector_layers@[j].0.spec_width(),
                                old(self).vector_layers@[j].0.spec_height(),
                                angles,
                            )
                    },
            decreases count - i,
        {
            assert(old(self)@[i as int].0 == old(self).vector_layers@[i as int].0@);
            let entry = &mut self.vector_layers[i];
            entry.0.randomise(rng);
            i = i + 1;
        }
        proof {
            assert(weights_of(self@) =~= weights_of(old(self)@));
            assert forall|j: int| 0 <= j < count implies {
                &&& (#[trigger] self@[j]).1 == old(self)@[j].1
                &&& unit_gradients(self@[j].0)
                &&& exists|angles: Seq<u16>|
                    angles.len() == old(self)@[j].0[0].len() * old(self)@[j].0.len() && self@[j].0
                        == layer_from_angles(old(self)@[j].0[0].len(), old(self)@[j].0.len(), angles)
            } by {
                assert(old(self)@[j].0 == old(self).vector_layers@[j].0@);
            }
        }
    }

    /// The value of the whole stack at `position`: the sum over the layers of
    /// the layer's value times its weight. Nothing brings it into the unit
    /// interval.
    pub fn sample(&self, position: Vec2) -> (value: i64)
        requires
            self.wf(),
        ensures
            value == noise_sample(self@, position.x as int, position.y as int),
            -SAMPLE_LIMIT <= value <= SAMPLE_LIMIT,
    {
        let ghost x = position.x as int;
        let ghost y = position.y as int;
        let ghost weights = weights_of(self@);
        let mut sum: i64 = 0;
        let mut i: usize = 0;
        while i < self.vector_layers.len()
            invariant
                i <= self.vector_layers@.len(),
                self.wf(),
                x == position.x,
                y == position.y,
                weights == weights_of(self@),
                sum == weighted_sum(self@.take(i as int), x, y),
                -2_828_432 * total_weight(weights.take(i as int)) <= sum <= 2_828_432 * total_weight(
                    weights.take(i as int),
                ),
                0 <= total_weight(weights.take(i as int)) <= WEIGHT_LIMIT,
            decreases self.vector_layers@.len() - i,
        {
            let entry = &self.vector_layers[i];
            assert(layer_ok(self@[i as int].0));
            let value: i64 = self.sample_layer(&entry.0, position);
            let weight: i64 = entry.1;
            proof {
                lemma_prefix_weight(weights, i as int);
                lemma_prefix_weight(weights, i + 1);
                assert(self@.take(i + 1).drop_last() =~= self@.take(i as int));
                lemma_product_bound(value as int, weight as int, 2_828_432, magnitude(weight as int));
            }
            sum = sum + value * weight;
            i = i + 1;
        }
        proof {
            assert(self@.take(i as int) =~= self@);
        }
        div_floor(sum as i128, ONE as i128) as i64
    }

    /// The number of layers.
    pub fn layer_count(&self) -> (n: usize)
        ensures
            n == self@.len(),
    {
        self.vector_layers.len()
    }

    /// Layer `i` of the stack.
    pub fn layer(&self, i: usize) -> (layer: &GradientNoiseLayer)
        requires
            i < self@.len(),
        ensures
            layer@ == self@[i as int].0,
            self.wf() ==> layer.wf(),
    {
        &self.vector_layers[i].0
    }

    /// The weight of layer `i`.
    pub fn weight(&self, i: usize) -> (w: i64)
        requires
            i < self@.len(),
        ensures
            w == self@[i as int].1,
    {
        self.vector_layers[i].1
    }

    /// The value of one layer at `position`.
    pub fn sample_layer(&self, layer: &GradientNoiseLayer, position: Vec2) -> (value: i64)
        requires
            layer.wf(),
        ensures
            value == layer_sample(layer@, position.x as int, position.y as int),
            -LAYER_LIMIT <= value <= LAYER_LIMIT,
    {
        layer.sample(position)
    }
}

} // verus!
