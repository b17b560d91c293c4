//! `CAGradientLayer`.
//!
//! Gradients aren't rendered yet, but the properties of the layers can be set
//! and read back.
use vstd::prelude::*;

use std::collections::HashMap;

verus! {

/// An object of the guest. Zero is nil.
pub type ObjectId = u32;

/// A point, as bit patterns of floats.
#[derive(Clone, Copy, Debug, PartialEq, Eq, Structural)]
pub struct Point {
    pub x: u32,
    pub y: u32,
}

/// The float 0.5.
pub const F_HALF: u32 = 0x3f00_0000;

/// The float 1.
pub const F_ONE: u32 = 0x3f80_0000;

/// Properties of a gradient layer.
#[derive(Clone, Copy, Debug, PartialEq, Eq, Structural)]
pub struct GradientProps {
    /// `NSArray*` or nil
    pub colors: ObjectId,
    /// Normalized start/end points of the gradient axis.
    pub start: Point,
    pub end: Point,
}

/// Apple's defaults: vertical gradient from top (0.5, 0.0) to bottom (0.5, 1.0).
pub open spec fn default_props() -> GradientProps {
    GradientProps {
        colors: 0,
        start: Point { x: F_HALF, y: 0 },
        end: Point { x: F_HALF, y: F_ONE },
    }
}

impl Default for GradientProps {
    fn default() -> (props: Self)
        ensures
            props == default_props(),
    {
        GradientProps {
            colors: 0,
            start: Point { x: F_HALF, y: 0 },
            end: Point { x: F_HALF, y: F_ONE },
        }
    }
}

/// Properties of all gradient layers that had one of them set.
pub struct State {
    gradients: HashMap<ObjectId, GradientProps>,
}

/// The properties of a layer.
pub open spec fn props_of(gradients: Map<u32, GradientProps>, layer: u32) -> GradientProps {
    if gradients.contains_key(layer) {
        gradients[layer]
    } else {
        default_props()
    }
}

impl View for State {
    type V = Map<u32, GradientProps>;

    closed spec fn view(&self) -> Map<u32, GradientProps> {
        self.gradients@
    }
}

impl Default for State {
    fn default() -> (state: Self)
        ensures
            state@ == Map::<u32, GradientProps>::empty(),
    {
        broadcast use vstd::std_specs::hash::group_hash_axioms;

        State { gradients: HashMap::new() }
    }
}

impl State {
    fn props(&self, layer: ObjectId) -> (props: GradientProps)
        ensures
            props == props_of(self@, layer),
    {
        broadcast use vstd::std_specs::hash::group_hash_axioms;

        match self.gradients.get(&layer) {
            Some(props) => *props,
            None => GradientProps::default(),
        }
    }

    fn set_props(&mut self, layer: ObjectId, props: GradientProps)
        ensures
            final(self)@ == old(self)@.insert(layer, props),
    {
        broadcast use vstd::std_specs::hash::group_hash_axioms;

        let _ = self.gradients.insert(layer, props);
    }

    pub fn colors(&self, layer: ObjectId) -> (colors: ObjectId)
        ensures
            colors == props_of(self@, layer).colors,
    {
        self.props(layer).colors
    }

    /// Sets the colours, which the caller has retained, and returns those that
    /// the caller has to release.
    pub fn set_colors(&mut self, layer: ObjectId, colors: ObjectId) -> (old_colors: ObjectId)
        ensures
            old_colors == props_of(old(self)@, layer).colors,
            final(self)@ == old(self)@.insert(
                layer,
                GradientProps { colors, ..props_of(old(self)@, layer) },
            ),
    {
        let mut props = self.props(layer);
        let old_colors: u32 = props.colors;
        props.colors = colors;
        self.set_props(layer, props);
        old_colors
    }

    pub fn start_point(&self, layer: ObjectId) -> (point: Point)
        ensures
            point == props_of(self@, layer).start,
    {
        self.props(layer).start
    }

    pub fn set_start_point(&mut self, layer: ObjectId, point: Point)
        ensures
            final(self)@ == old(self)@.insert(
                layer,
                GradientProps { start: point, ..props_of(old(self)@, layer) },
            ),
    {
        let mut props = self.props(layer);
        props.start = point;
        self.set_props(layer, props);
    }

    pub fn end_point(&self, layer: ObjectId) -> (point: Point)
        ensures
            point == props_of(self@, layer).end,
    {
        self.props(layer).end
    }

    pub fn set_end_point(&mut self, layer: ObjectId, point: Point)
        ensures
            final(self)@ == old(self)@.insert(
                layer,
                GradientProps { end: point, ..props_of(old(self)@, layer) },
            ),
    {
        let mut props = self.props(layer);
        props.end = point;
        self.set_props(layer, props);
    }

    /// Only axial gradients are meaningful without real gradient rendering.
    pub fn gradient_type(&self) -> (name: &'static str)
        ensures
            name@ == "kCAGradientLayerAxial"@,
    {
        "kCAGradientLayerAxial"
    }

    /// Forgets a layer, and returns the colours that the caller has to release.
    pub fn dealloc(&mut self, layer: ObjectId) -> (colors: Option<ObjectId>)
        ensures
            final(self)@ == old(self)@.remove(layer),
            colors == if old(self)@.contains_key(layer) {
                Some(old(self)@[layer].colors)
            } else {
                None
            },
    {
        broadcast use vstd::std_specs::hash::group_hash_axioms;

        match self.gradients.remove(&layer) {
            Some(props) => Some(props.colors),
            None => None,
        }
    }
}

/// A layer has the properties that were set, other layers keep theirs, and a
/// layer that was forgotten has the defaults again.
pub proof fn properties_round_trip(
    gradients: Map<u32, GradientProps>,
    layer: u32,
    props: GradientProps,
    other: u32,
)
    ensures
        props_of(gradients.insert(layer, props), layer) == props,
        other != layer ==> props_of(gradients.insert(layer, props), other) == props_of(
            gradients,
            other,
        ),
        props_of(gradients.remove(layer), layer) == default_props(),
        other != layer ==> props_of(gradients.remove(layer), other) == props_of(gradients, other),
{
}

} // verus!
