use manoka::chunk::Vec3Bits;
use manoka::sun::{prepare_sun_lights, ExtractedSunLight, GpuSunLight};

fn light(seed: f32) -> ExtractedSunLight {
    ExtractedSunLight {
        color: [seed.to_bits(), 0.5f32.to_bits(), 0.25f32.to_bits(), 1.0f32.to_bits()],
        illuminance: (seed * 1000.0).to_bits(),
        forward: Vec3Bits { x: 0.0f32.to_bits(), y: (-1.0f32).to_bits(), z: seed.to_bits() },
    }
}

#[test]
fn light_record_copies_color_illuminance_and_direction() {
    let record = GpuSunLight::from(light(1.0));
    assert_eq!(record.color, [1.0f32.to_bits(), 0.5f32.to_bits(), 0.25f32.to_bits(), 1.0f32.to_bits()]);
    assert_eq!(record.illuminance, 1000.0f32.to_bits());
    assert_eq!(record.direction, Vec3Bits { x: 0.0f32.to_bits(), y: (-1.0f32).to_bits(), z: 1.0f32.to_bits() });
}

#[test]
fn light_buffer_has_one_record_per_light_in_order() {
    let lights = vec![light(1.0), light(2.0), light(3.0)];
    let buffer = prepare_sun_lights(&lights);
    assert_eq!(buffer.0, vec![GpuSunLight::from(light(1.0)), GpuSunLight::from(light(2.0)), GpuSunLight::from(light(3.0))]);
    assert!(prepare_sun_lights(&Vec::new()).0.is_empty());
}
