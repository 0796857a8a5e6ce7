use voxel_pipeline::framing::vox_file_fits;
use voxel_pipeline::vox::{ImportError, VoxData, VoxModel};
use voxel_pipeline::world::{Block, World, WorldDimension, WorldPosition};

fn one_voxel(size: (u32, u32, u32), voxel: (u8, u8, u8, u8), palette: Vec<u32>) -> VoxData {
    VoxData { models: vec![VoxModel { size, voxels: vec![voxel] }], palette }
}

#[test]
fn import_single_voxel() {
    let data = one_voxel((2, 1, 1), (0, 0, 0, 0), vec![0x00112233]);
    let w = World::from_vox_data(&data).unwrap();
    assert_eq!(w.dims(), WorldDimension(2, 1, 1));
    assert_eq!(w.get(WorldPosition(0, 0, 0)), Block::solid(0x33, 0x22, 0x11));
    assert_eq!(w.get(WorldPosition(1, 0, 0)), Block::Empty);
    assert_eq!(w.iter().len(), 1);
}

#[test]
fn import_swaps_y_and_z() {
    let data = one_voxel((2, 3, 4), (1, 2, 3, 1), vec![0, 0x00aabbcc]);
    let w = World::from_vox_data(&data).unwrap();
    assert_eq!(w.dims(), WorldDimension(2, 4, 3));
    assert_eq!(w.get(WorldPosition(1, 3, 2)), Block::solid(0xcc, 0xbb, 0xaa));
    assert_eq!(w.iter().len(), 1);
}

#[test]
fn later_voxel_overwrites_earlier() {
    let data = VoxData {
        models: vec![VoxModel { size: (1, 1, 1), voxels: vec![(0, 0, 0, 0), (0, 0, 0, 1)] }],
        palette: vec![0x000000ff, 0x0000ff00],
    };
    let w = World::from_vox_data(&data).unwrap();
    assert_eq!(w.get(WorldPosition(0, 0, 0)), Block::solid(0, 0xff, 0));
}

#[test]
fn import_errors() {
    let none = VoxData { models: vec![], palette: vec![1] };
    assert_eq!(World::from_vox_data(&none).unwrap_err(), ImportError::NoModel);
    let outside = one_voxel((2, 1, 1), (2, 0, 0, 0), vec![1]);
    assert_eq!(World::from_vox_data(&outside).unwrap_err(), ImportError::BadVoxel);
    let swapped = one_voxel((1, 2, 1), (0, 0, 1, 0), vec![1]);
    assert_eq!(World::from_vox_data(&swapped).unwrap_err(), ImportError::BadVoxel);
    let no_color = one_voxel((1, 1, 1), (0, 0, 0, 1), vec![1]);
    assert_eq!(World::from_vox_data(&no_color).unwrap_err(), ImportError::BadVoxel);
}

#[test]
fn import_too_large() {
    let big = VoxData {
        models: vec![VoxModel { size: (u32::MAX, u32::MAX, u32::MAX), voxels: vec![] }],
        palette: vec![],
    };
    assert_eq!(World::from_vox_data(&big).unwrap_err(), ImportError::TooLarge);
}

#[test]
fn import_rejects_garbage_bytes() {
    assert_eq!(World::from_vox(b"not a voxel file").unwrap_err(), ImportError::Malformed);
}

#[test]
fn import_from_encoded_file() {
    let data = dot_vox::DotVoxData {
        version: 150,
        models: vec![dot_vox::Model {
            size: dot_vox::Size { x: 2, y: 1, z: 1 },
            voxels: vec![dot_vox::Voxel { x: 1, y: 0, z: 0, i: 0 }],
        }],
        palette: vec![0x00112233, 0x00445566],
        materials: vec![],
    };
    let mut bytes: Vec<u8> = Vec::new();
    data.write_vox(&mut bytes).unwrap();
    let w = World::from_vox(&bytes).unwrap();
    assert_eq!(w.dims(), WorldDimension(2, 1, 1));
    assert_eq!(w.get(WorldPosition(1, 0, 0)), Block::solid(0x33, 0x22, 0x11));
    assert_eq!(w.get(WorldPosition(0, 0, 0)), Block::Empty);
}

fn chunk(id: &[u8; 4], content: &[u8], children: &[u8]) -> Vec<u8> {
    let mut out = id.to_vec();
    out.extend_from_slice(&(content.len() as u32).to_le_bytes());
    out.extend_from_slice(&(children.len() as u32).to_le_bytes());
    out.extend_from_slice(content);
    out.extend_from_slice(children);
    out
}

fn vox_file(children: &[u8]) -> Vec<u8> {
    let mut out = b"VOX ".to_vec();
    out.extend_from_slice(&150u32.to_le_bytes());
    out.extend_from_slice(&chunk(b"MAIN", &[], children));
    out
}

#[test]
fn truncated_files_are_malformed() {
    assert_eq!(World::from_vox(b"VOX ").unwrap_err(), ImportError::Malformed);
    assert_eq!(World::from_vox(b"VOX \x96\x00\x00\x00MAIN\x00").unwrap_err(), ImportError::Malformed);
    assert!(!vox_file_fits(b"VOX "));
    assert!(vox_file_fits(b"VO"));
    assert!(vox_file_fits(b"not a voxel file"));
}

#[test]
fn voxel_count_beyond_content_is_malformed() {
    let mut size = Vec::new();
    for v in [1u32, 1, 1] {
        size.extend_from_slice(&v.to_le_bytes());
    }
    let mut xyzi = 5u32.to_le_bytes().to_vec();
    xyzi.extend_from_slice(&[0, 0, 0, 1]);
    let mut children = chunk(b"SIZE", &size, &[]);
    children.extend_from_slice(&chunk(b"XYZI", &xyzi, &[]));
    let bytes = vox_file(&children);
    assert!(!vox_file_fits(&bytes));
    assert_eq!(World::from_vox(&bytes).unwrap_err(), ImportError::Malformed);
}

#[test]
fn short_size_and_ragged_palette_are_malformed() {
    let short_size = vox_file(&chunk(b"SIZE", &[1, 0, 0, 0], &[]));
    assert!(!vox_file_fits(&short_size));
    let ragged = vox_file(&chunk(b"RGBA", &[1, 2, 3, 4, 5], &[]));
    assert!(!vox_file_fits(&ragged));
    assert_eq!(World::from_vox(&ragged).unwrap_err(), ImportError::Malformed);
}

#[test]
fn hand_framed_file_imports() {
    let mut size = Vec::new();
    for v in [1u32, 2, 1] {
        size.extend_from_slice(&v.to_le_bytes());
    }
    let mut xyzi = 1u32.to_le_bytes().to_vec();
    xyzi.extend_from_slice(&[0, 1, 0, 1]);
    let mut matl = 7u32.to_le_bytes().to_vec();
    matl.extend_from_slice(&1u32.to_le_bytes());
    for s in ["_type", "_diffuse"] {
        matl.extend_from_slice(&(s.len() as u32).to_le_bytes());
        matl.extend_from_slice(s.as_bytes());
    }
    let mut children = chunk(b"SIZE", &size, &[]);
    children.extend_from_slice(&chunk(b"XYZI", &xyzi, &[]));
    children.extend_from_slice(&chunk(b"RGBA", &0x00abcdefu32.to_le_bytes(), &[]));
    children.extend_from_slice(&chunk(b"MATL", &matl, &[]));
    let bytes = vox_file(&children);
    assert!(vox_file_fits(&bytes));
    let w = World::from_vox(&bytes).unwrap();
    assert_eq!(w.dims(), WorldDimension(1, 1, 2));
    assert_eq!(w.get(WorldPosition(0, 0, 1)), Block::solid(0xef, 0xcd, 0xab));
}
