use manoka::attributes::GpuChunkAttributes;
use manoka::chunk::{debug_sphere_contains, Chunk, FullVoxel, Vec3Bits};
use manoka::decode::{decode_combined, split_combined};
use manoka::gpu_chunk::GpuChunk;
use manoka::occupancy::{word_ones, GpuChunkOccupancy};
use manoka::wire::{ATTRIBUTE_BYTES, OCCUPANCY_BYTES};
use manoka::{CHUNK_EDGE, CHUNK_VOXEL_COUNT, OCCUPANCY_WORDS};

fn vec3(x: f32, y: f32, z: f32) -> Vec3Bits {
    Vec3Bits { x: x.to_bits(), y: y.to_bits(), z: z.to_bits() }
}

fn voxel(seed: u32) -> FullVoxel {
    FullVoxel {
        normal: vec3(seed as f32, 0.5, -1.0),
        color: Vec3Bits { x: 1.0f32.to_bits(), y: seed, z: seed.wrapping_mul(2654435761) },
    }
}

fn patterned_cells() -> Vec<Option<FullVoxel>> {
    (0..CHUNK_VOXEL_COUNT)
        .map(|i| if i % 3 == 0 || i % 7 == 1 || i == CHUNK_VOXEL_COUNT - 1 { Some(voxel(i as u32)) } else { None })
        .collect()
}

fn single_cell(index: usize, v: FullVoxel) -> Chunk {
    let mut cells: Vec<Option<FullVoxel>> = vec![None; CHUNK_VOXEL_COUNT];
    cells[index] = Some(v);
    Chunk::from_cells(cells).unwrap()
}

fn sphere_shading() -> Vec<FullVoxel> {
    let mut shading = Vec::with_capacity(CHUNK_VOXEL_COUNT);
    for z in 0..64 {
        for y in 0..64 {
            for x in 0..64 {
                let f = [x as f32 / 32.0 - 1.0, y as f32 / 32.0 - 1.0, z as f32 / 32.0 - 1.0];
                let len = (f[0] * f[0] + f[1] * f[1] + f[2] * f[2]).sqrt();
                let n = [f[0] / len, f[1] / len, f[2] / len];
                shading.push(FullVoxel {
                    normal: vec3(n[0], n[1], n[2]),
                    color: vec3(n[0] / 2.0 + 1.0, n[1] / 2.0 + 1.0, n[2] / 2.0 + 1.0),
                });
            }
        }
    }
    shading
}

#[test]
fn constants_describe_a_64_cubed_chunk() {
    assert_eq!(CHUNK_EDGE, 64);
    assert_eq!(CHUNK_VOXEL_COUNT, 64 * 64 * 64);
    assert_eq!(OCCUPANCY_WORDS, CHUNK_VOXEL_COUNT / 32);
    assert_eq!(OCCUPANCY_BYTES, OCCUPANCY_WORDS * 4);
    assert_eq!(ATTRIBUTE_BYTES, 24);
}

#[test]
fn empty_chunk_encodes_to_zero_words_and_no_attributes() {
    let chunk = Chunk::new_empty();
    assert_eq!(chunk.cells().len(), 262144);
    assert!(chunk.cells().iter().all(|c| c.is_none()));
    let occupancy = chunk.prepare_occupancy();
    assert_eq!(occupancy.occupancy.len(), 8192);
    assert!(occupancy.occupancy.iter().all(|w| *w == 0));
    assert!(chunk.prepare_attributes().attributes.is_empty());
    let combined = chunk.encode_combined();
    assert_eq!(combined.len(), 8192 * 4);
    assert!(combined.iter().all(|b| *b == 0));
}

#[test]
fn full_chunk_encodes_to_all_ones() {
    let cells: Vec<Option<FullVoxel>> = (0..CHUNK_VOXEL_COUNT).map(|i| Some(voxel(i as u32))).collect();
    let chunk = Chunk::from_cells(cells).unwrap();
    let occupancy = chunk.prepare_occupancy();
    assert!(occupancy.occupancy.iter().all(|w| *w == u32::MAX));
    assert_eq!(occupancy.popcount(), 262144);
    assert_eq!(chunk.prepare_attributes().attributes.len(), 262144);
    assert_eq!(chunk.encode_combined().len(), 8192 * 4 + 262144 * 24);
}

#[test]
fn popcount_equals_attribute_count() {
    let chunk = Chunk::from_cells(patterned_cells()).unwrap();
    let occupancy = chunk.prepare_occupancy();
    let attributes = chunk.prepare_attributes();
    let ones: u32 = occupancy.occupancy.iter().map(|w| w.count_ones()).sum();
    assert_eq!(ones as usize, attributes.attributes.len());
    assert_eq!(occupancy.popcount(), attributes.attributes.len());
    let occupied = patterned_cells().iter().filter(|c| c.is_some()).count();
    assert_eq!(occupied, attributes.attributes.len());
}

#[test]
fn each_bit_tells_whether_its_cell_is_occupied() {
    let cells = patterned_cells();
    let chunk = Chunk::from_cells(cells.clone()).unwrap();
    let occupancy = chunk.prepare_occupancy();
    for i in 0..CHUNK_VOXEL_COUNT {
        let bit = (occupancy.occupancy[i / 32] >> (i % 32)) & 1 == 1;
        assert_eq!(bit, cells[i].is_some(), "cell {}", i);
    }
}

#[test]
fn single_cell_sets_exactly_one_bit() {
    let chunk = single_cell(33, voxel(7));
    let occupancy = chunk.prepare_occupancy();
    for (n, word) in occupancy.occupancy.iter().enumerate() {
        assert_eq!(*word, if n == 1 { 0b10 } else { 0 });
    }
    let x_fastest = single_cell(5 + 64 * 2 + 4096 * 3, voxel(1));
    let words = x_fastest.prepare_occupancy().occupancy;
    let index = 5 + 64 * 2 + 4096 * 3;
    assert_eq!(words[index / 32], 1u32 << (index % 32));
    let last = single_cell(CHUNK_VOXEL_COUNT - 1, voxel(1));
    assert_eq!(last.prepare_occupancy().occupancy[8191], 0x8000_0000);
}

#[test]
fn attributes_keep_the_order_of_the_cells() {
    let cells = patterned_cells();
    let chunk = Chunk::from_cells(cells.clone()).unwrap();
    let dense = chunk.prepare_attributes().attributes;
    let expected: Vec<FullVoxel> = cells.iter().flatten().copied().collect();
    assert_eq!(dense, expected);
    let mut cells: Vec<Option<FullVoxel>> = vec![None; CHUNK_VOXEL_COUNT];
    cells[10] = Some(voxel(10));
    cells[200_000] = Some(voxel(20));
    cells[4] = Some(voxel(30));
    let dense = Chunk::from_cells(cells).unwrap().prepare_attributes().attributes;
    assert_eq!(dense, vec![voxel(30), voxel(10), voxel(20)]);
}

#[test]
fn attribute_record_is_24_little_endian_bytes() {
    let v = FullVoxel { normal: vec3(1.0, -1.0, 0.5), color: vec3(0.25, 1.0, -1.0) };
    let bytes = GpuChunkAttributes { attributes: vec![v] }.to_bytes();
    assert_eq!(
        bytes,
        vec![
            0x00, 0x00, 0x80, 0x3f, 0x00, 0x00, 0x80, 0xbf, 0x00, 0x00, 0x00, 0x3f, 0x00, 0x00, 0x80, 0x3e, 0x00,
            0x00, 0x80, 0x3f, 0x00, 0x00, 0x80, 0xbf,
        ]
    );
    let mut expected = Vec::new();
    for f in [1.0f32, -1.0, 0.5, 0.25, 1.0, -1.0] {
        expected.extend_from_slice(&f.to_le_bytes());
    }
    assert_eq!(bytes, expected);
    let two = GpuChunkAttributes { attributes: vec![v, voxel(3)] }.to_bytes();
    assert_eq!(two.len(), 48);
    assert_eq!(&two[..24], &expected[..]);
    assert!(GpuChunkAttributes { attributes: Vec::new() }.to_bytes().is_empty());
}

#[test]
fn occupancy_words_are_little_endian() {
    let mut words = [0u32; OCCUPANCY_WORDS];
    words[0] = 0x0403_0201;
    words[8191] = 0xdead_beef;
    let bytes = GpuChunkOccupancy { occupancy: words }.to_bytes();
    assert_eq!(bytes.len(), 32768);
    assert_eq!(&bytes[..4], &[1, 2, 3, 4]);
    assert_eq!(&bytes[32764..], &[0xef, 0xbe, 0xad, 0xde]);
    assert!(bytes[4..32764].iter().all(|b| *b == 0));
}

#[test]
fn combined_buffer_is_occupancy_then_attributes() {
    let chunk = Chunk::from_cells(patterned_cells()).unwrap();
    let combined = chunk.encode_combined();
    let mut split = chunk.prepare_occupancy().to_bytes();
    assert_eq!(split.len(), OCCUPANCY_BYTES);
    split.extend(chunk.prepare_attributes().to_bytes());
    assert_eq!(combined, split);
    let v = FullVoxel { normal: vec3(1.0, 0.0, 0.0), color: vec3(0.5, 0.5, 0.5) };
    let one = single_cell(33, v).encode_combined();
    assert_eq!(one.len(), 32768 + 24);
    assert_eq!(&one[4..8], &[2, 0, 0, 0]);
    assert_eq!(&one[32768..32772], &1.0f32.to_le_bytes());
    assert_eq!(&one[32788..32792], &0.5f32.to_le_bytes());
}

#[test]
fn combined_round_trip() {
    let cells = patterned_cells();
    let chunk = Chunk::from_cells(cells.clone()).unwrap();
    let bytes = chunk.encode_combined();
    let back = decode_combined(&bytes).unwrap();
    assert_eq!(back.cells(), &cells);
    assert_eq!(back.encode_combined(), bytes);
    let empty = decode_combined(&Chunk::new_empty().encode_combined()).unwrap();
    assert!(empty.cells().iter().all(|c| c.is_none()));
}

#[test]
fn round_trip_keeps_every_bit_pattern() {
    let nan = FullVoxel {
        normal: Vec3Bits { x: f32::NAN.to_bits(), y: 0x7fc0_0001, z: (-0.0f32).to_bits() },
        color: Vec3Bits { x: f32::INFINITY.to_bits(), y: 0, z: u32::MAX },
    };
    let chunk = single_cell(4096, nan);
    let back = decode_combined(&chunk.encode_combined()).unwrap();
    assert_eq!(back.cells()[4096], Some(nan));
    assert_eq!(back.cells().iter().filter(|c| c.is_some()).count(), 1);
}

#[test]
fn decode_turns_down_buffers_that_encode_no_chunk() {
    assert!(decode_combined(&[]).is_none());
    assert!(decode_combined(&vec![0u8; 32767]).is_none());
    assert!(decode_combined(&vec![0u8; 32768]).is_some());
    assert!(decode_combined(&vec![0u8; 32769]).is_none());
    assert!(decode_combined(&vec![0u8; 32768 + 24]).is_none());
    let mut one = vec![0u8; 32768 + 24];
    one[0] = 1;
    assert!(decode_combined(&one).is_some());
    one.pop();
    assert!(decode_combined(&one).is_none());
    let mut two_bits = vec![0u8; 32768 + 24];
    two_bits[0] = 3;
    assert!(decode_combined(&two_bits).is_none());
}

#[test]
fn decode_reads_a_hand_built_buffer() {
    let mut bytes = vec![0u8; 32768];
    bytes[1] = 0x01;
    bytes[32767] = 0x80;
    for f in [1.0f32, 2.0, 3.0, 4.0, 5.0, 6.0, 7.0, 8.0, 9.0, 10.0, 11.0, 12.0] {
        bytes.extend_from_slice(&f.to_le_bytes());
    }
    let chunk = decode_combined(&bytes).unwrap();
    let cells = chunk.cells();
    assert_eq!(cells[8], Some(FullVoxel { normal: vec3(1.0, 2.0, 3.0), color: vec3(4.0, 5.0, 6.0) }));
    assert_eq!(cells[262143], Some(FullVoxel { normal: vec3(7.0, 8.0, 9.0), color: vec3(10.0, 11.0, 12.0) }));
    assert_eq!(cells.iter().filter(|c| c.is_some()).count(), 2);
}

#[test]
fn from_cells_wants_one_cell_per_voxel() {
    assert!(Chunk::from_cells(Vec::new()).is_none());
    assert!(Chunk::from_cells(vec![None; CHUNK_VOXEL_COUNT - 1]).is_none());
    assert!(Chunk::from_cells(vec![None; CHUNK_VOXEL_COUNT + 1]).is_none());
    assert!(Chunk::from_cells(vec![None; CHUNK_VOXEL_COUNT]).is_some());
}

#[test]
fn prepared_asset_holds_both_encodings() {
    let cells = patterned_cells();
    let chunk = Chunk::from_cells(cells.clone()).unwrap();
    let gpu = chunk.prepare_asset();
    assert_eq!(gpu.occupancy.occupancy, chunk.prepare_occupancy().occupancy);
    assert_eq!(gpu.attributes.attributes, chunk.prepare_attributes().attributes);
    assert_eq!(gpu.to_chunk().unwrap().cells(), &cells);
}

#[test]
fn gpu_chunk_wants_one_attribute_per_set_bit() {
    let mut words = [0u32; OCCUPANCY_WORDS];
    words[2] = 0b101;
    let short = GpuChunk {
        occupancy: GpuChunkOccupancy { occupancy: words },
        attributes: GpuChunkAttributes { attributes: vec![voxel(1)] },
    };
    assert!(short.to_chunk().is_none());
    let right = GpuChunk {
        occupancy: GpuChunkOccupancy { occupancy: words },
        attributes: GpuChunkAttributes { attributes: vec![voxel(1), voxel(2)] },
    };
    let chunk = right.to_chunk().unwrap();
    assert_eq!(chunk.cells()[64], Some(voxel(1)));
    assert_eq!(chunk.cells()[65], None);
    assert_eq!(chunk.cells()[66], Some(voxel(2)));
}

#[test]
fn word_ones_counts_set_bits() {
    assert_eq!(word_ones(0), 0);
    assert_eq!(word_ones(1), 1);
    assert_eq!(word_ones(0x8000_0000), 1);
    assert_eq!(word_ones(0xf0f0_0001), 9);
    assert_eq!(word_ones(u32::MAX), 32);
}

#[test]
fn debug_sphere_is_the_ball_of_radius_32() {
    assert!(debug_sphere_contains(32, 32, 32));
    assert!(debug_sphere_contains(0, 32, 32));
    assert!(debug_sphere_contains(32, 0, 32));
    assert!(debug_sphere_contains(32, 32, 0));
    assert!(debug_sphere_contains(63, 32, 32));
    assert!(!debug_sphere_contains(0, 31, 32));
    assert!(!debug_sphere_contains(0, 0, 0));
    assert!(!debug_sphere_contains(63, 63, 63));
    assert!(debug_sphere_contains(14, 14, 14));
    assert!(!debug_sphere_contains(13, 13, 13));
}

#[test]
fn sphere_popcount_is_the_lattice_point_count() {
    let shading = sphere_shading();
    let chunk = Chunk::debug_red_sphere_chunk(&shading).unwrap();
    let mut inside = 0usize;
    for z in 0..64i32 {
        for y in 0..64i32 {
            for x in 0..64i32 {
                let d = (x - 32) * (x - 32) + (y - 32) * (y - 32) + (z - 32) * (z - 32);
                if d <= 32 * 32 {
                    inside += 1;
                }
            }
        }
    }
    let occupancy = chunk.prepare_occupancy();
    let ones: u32 = occupancy.occupancy.iter().map(|w| w.count_ones()).sum();
    assert_eq!(ones as usize, inside);
    assert_eq!(occupancy.popcount(), inside);
    assert_eq!(inside, 137062);
    assert_eq!(chunk.prepare_attributes().attributes.len(), 137062);
    assert_eq!(chunk.encode_combined().len(), 32768 + 137062 * 24);
}

#[test]
fn sphere_agrees_with_the_distance_in_floats() {
    let shading = sphere_shading();
    let chunk = Chunk::debug_red_sphere_chunk(&shading).unwrap();
    let cells = chunk.cells();
    for z in 0..64usize {
        for y in 0..64usize {
            for x in 0..64usize {
                let f = [x as f32 / 32.0 - 1.0, y as f32 / 32.0 - 1.0, z as f32 / 32.0 - 1.0];
                let occupied = (f[0] * f[0] + f[1] * f[1] + f[2] * f[2]).sqrt() <= 1.0;
                let i = x + 64 * y + 4096 * z;
                assert_eq!(cells[i].is_some(), occupied);
                if occupied {
                    assert_eq!(cells[i], Some(shading[i]));
                }
            }
        }
    }
}

#[test]
fn split_combined_gives_the_two_buffers() {
    let chunk = Chunk::from_cells(patterned_cells()).unwrap();
    let gpu = split_combined(&chunk.encode_combined()).unwrap();
    assert_eq!(gpu.occupancy.occupancy, chunk.prepare_occupancy().occupancy);
    assert_eq!(gpu.attributes.attributes, chunk.prepare_attributes().attributes);
    assert!(split_combined(&vec![0u8; 100]).is_none());
    let mut one = vec![0u8; 32768];
    one[32767] = 0x80;
    assert!(split_combined(&one).is_none());
    one.extend_from_slice(&[7u8; 24]);
    let gpu = split_combined(&one).unwrap();
    assert_eq!(gpu.occupancy.occupancy[8191], 0x8000_0000);
    assert_eq!(gpu.attributes.attributes.len(), 1);
    assert_eq!(gpu.attributes.attributes[0].color.z, 0x0707_0707);
}

#[test]
fn sphere_wants_one_attribute_per_voxel() {
    let mut shading = sphere_shading();
    shading.pop();
    assert!(Chunk::debug_red_sphere_chunk(&shading).is_none());
    assert!(Chunk::debug_red_sphere_chunk(&Vec::new()).is_none());
    shading.push(voxel(1));
    shading.push(voxel(2));
    assert!(Chunk::debug_red_sphere_chunk(&shading).is_none());
}
