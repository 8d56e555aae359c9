//! Directional lights as the lighting pass reads them.

use vstd::prelude::*;
use vstd::std_specs::convert::FromSpecImpl;
use crate::chunk::Vec3Bits;

verus! {

/// A directional light as it is taken out of the scene: its color in
/// linear RGBA, its illuminance, and the direction in which its transform
/// points. All values are single-precision bit patterns.
#[derive(Clone, Copy, Debug, PartialEq, Eq)]
pub struct ExtractedSunLight {
    pub color: [u32; 4],
    pub illuminance: u32,
    pub forward: Vec3Bits,
}

/// The light record that the shader reads.
#[derive(Clone, Copy, Debug, PartialEq, Eq)]
pub struct GpuSunLight {
    pub color: [u32; 4],
    pub illuminance: u32,
    pub direction: Vec3Bits,
}

/// The record of an extracted light: its color and illuminance as they
/// are, and the direction in which it points.
pub open spec fn sun_light_record(value: ExtractedSunLight) -> GpuSunLight {
    GpuSunLight { color: value.color, illuminance: value.illuminance, direction: value.forward }
}

impl From<ExtractedSunLight> for GpuSunLight {
    /// The record of an extracted light.
    fn from(value: ExtractedSunLight) -> (light: GpuSunLight) {
        GpuSunLight {
            color: value.color,
            illuminance: value.illuminance,
            direction: value.forward,
        }
    }
}

impl FromSpecImpl<ExtractedSunLight> for GpuSunLight {
    open spec fn obeys_from_spec() -> bool {
        true
    }

    open spec fn from_spec(value: ExtractedSunLight) -> GpuSunLight {
        sun_light_record(value)
    }
}

/// The light records of a frame, one per light of the scene.
#[derive(Clone, Debug)]
pub struct SunLightsBuffer(pub Vec<GpuSunLight>);

/// The records of the given lights, in their order.
pub open spec fn light_records(lights: Seq<ExtractedSunLight>) -> Seq<GpuSunLight> {
    Seq::new(lights.len(), |i: int| sun_light_record(lights[i]))
}

/// Builds the light records of a frame.
pub fn prepare_sun_lights(lights: &Vec<ExtractedSunLight>) -> (buffer: SunLightsBuffer)
    ensures
        buffer.0@ == light_records(lights@),
{
    let mut records: Vec<GpuSunLight> = Vec::new();
    let mut i: usize = 0;
    while i < lights.len()
        invariant
            i <= lights@.len(),
            records@.len() == i,
            forall|k: int| 0 <= k < i ==> records@[k] == sun_light_record(lights@[k]),
        decreases lights@.len() - i,
    {
        records.push(GpuSunLight::from(lights[i]));
        i += 1;
    }
    assert(records@ =~= light_records(lights@));
    SunLightsBuffer(records)
}

} // verus!
