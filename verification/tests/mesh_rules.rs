use furnigen_core::export_mesh::{
    check_mesh_buffers, gltf_binary_buffer, gltf_buffer_layout, gltf_data_uri, obj_text,
    MeshExportError,
};
use furnigen_core::mesh_index::push_quad_indices;
use furnigen_core::prng::SplitMix64;
use furnigen_core::shelf_layout::{grid_board_cells, upright_count};

#[test]
fn first_quad_indices() {
    let mut idx = Vec::new();
    push_quad_indices(&mut idx, 0);
    assert_eq!(idx, vec![0, 1, 2, 0, 2, 3]);
    push_quad_indices(&mut idx, 12);
    assert_eq!(idx, vec![0, 1, 2, 0, 2, 3, 4, 5, 6, 4, 6, 7]);
}

#[test]
fn five_panel_box_is_a_triangle_mesh() {
    let mut positions_len = 0usize;
    let mut idx = Vec::new();
    for _ in 0..5 {
        push_quad_indices(&mut idx, positions_len);
        positions_len += 12;
    }
    assert_eq!(positions_len, 60);
    assert_eq!(idx.len(), 30);
    assert_eq!(idx.len() % 3, 0);
    assert!(idx.iter().all(|&i| (i as usize) < positions_len / 3));
    assert_eq!(check_mesh_buffers(positions_len, idx.len()), Ok(()));
}

#[test]
fn mesh_checks_report_empty_positions_first() {
    assert_eq!(check_mesh_buffers(0, 0), Err(MeshExportError::EmptyPositions));
    assert_eq!(check_mesh_buffers(0, 4), Err(MeshExportError::EmptyPositions));
    assert_eq!(check_mesh_buffers(3, 4), Err(MeshExportError::BadIndexCount));
    assert_eq!(check_mesh_buffers(3, 3), Ok(()));
    assert_eq!(MeshExportError::EmptyPositions.message(), "mesh has no vertices");
    assert_eq!(
        MeshExportError::BadIndexCount.message(),
        "mesh index count must be a multiple of 3"
    );
}

#[test]
fn obj_text_numbers_faces_from_one() {
    let idx = vec![0u32, 1, 2, 0, 2, 3];
    let obj = obj_text("wardrobe", "v 0 0 0\nv 1 0 0\nv 1 1 0\nv 0 1 0\n", 12, &idx).unwrap();
    assert_eq!(
        obj,
        "# FurniGen — units: mm\no wardrobe\nv 0 0 0\nv 1 0 0\nv 1 1 0\nv 0 1 0\nf 1 2 3\nf 1 3 4\n"
    );
    let v_lines = obj.lines().filter(|l| l.starts_with("v ")).count();
    let f_lines = obj.lines().filter(|l| l.starts_with('f')).count();
    assert_eq!(v_lines, 4);
    assert_eq!(f_lines, 2);
}

#[test]
fn obj_text_refuses_bad_meshes() {
    assert_eq!(obj_text("x", "", 0, &vec![0, 1, 2]), Err(MeshExportError::EmptyPositions));
    assert_eq!(obj_text("x", "v 0 0 0\n", 3, &vec![0, 0]), Err(MeshExportError::BadIndexCount));
}

#[test]
fn gltf_layout_of_the_five_panel_box() {
    let l = gltf_buffer_layout(60, 30).unwrap();
    assert_eq!(l.vertex_count, 20);
    assert_eq!(l.index_count, 30);
    assert_eq!(l.position_bytes, 240);
    assert_eq!(l.index_bytes, 120);
    assert_eq!(l.buffer_bytes, 360);
    assert!(matches!(gltf_buffer_layout(0, 30), Err(MeshExportError::EmptyPositions)));
    assert!(matches!(gltf_buffer_layout(60, 31), Err(MeshExportError::BadIndexCount)));
}

#[test]
fn gltf_buffer_is_little_endian_positions_then_indices() {
    let positions = [1.5f32, -2.0, 2400.0];
    let bits: Vec<u32> = positions.iter().map(|p| p.to_bits()).collect();
    let idx = vec![0u32, 1, 0x0102_0304];
    let bin = gltf_binary_buffer(&bits, &idx);
    let mut expected = Vec::new();
    for p in positions {
        expected.extend_from_slice(&p.to_le_bytes());
    }
    for i in &idx {
        expected.extend_from_slice(&i.to_le_bytes());
    }
    assert_eq!(bin, expected);
    assert_eq!(bin.len(), gltf_buffer_layout(3, 3).unwrap().buffer_bytes);
    assert_eq!(&bin[20..24], &[4, 3, 2, 1]);
}

#[test]
fn gltf_data_uri_is_base64() {
    assert_eq!(
        gltf_data_uri(&b"hello".to_vec()),
        "data:application/octet-stream;base64,aGVsbG8="
    );
    assert_eq!(
        gltf_data_uri(&vec![0, 1, 2, 3, 255]),
        "data:application/octet-stream;base64,AAECA/8="
    );
    assert_eq!(gltf_data_uri(&Vec::new()), "data:application/octet-stream;base64,");
}

#[test]
fn splitmix64_reference_stream() {
    let mut g = SplitMix64::new(0);
    assert_eq!(g.next_u64(), 0xe220_a839_7b1d_cdaf);
    assert_eq!(g.next_u64(), 0x6e78_9e6a_a1b9_65f4);
    assert_eq!(g.next_u64(), 0x06c4_5d18_8009_454f);
    let mut h = SplitMix64::new(42);
    assert_eq!(h.next_u64(), 0xbdd7_3226_2feb_6e95);
    assert_eq!(h.next_u64(), 0x28ef_e333_b266_f103);
}

#[test]
fn splitmix64_same_seed_same_stream() {
    let mut a = SplitMix64::new(123_456_789);
    let mut b = SplitMix64::new(123_456_789);
    let mut c = SplitMix64::new(123_456_790);
    let sa: Vec<u64> = (0..100).map(|_| a.next_u64()).collect();
    let sb: Vec<u64> = (0..100).map(|_| b.next_u64()).collect();
    let sc: Vec<u64> = (0..100).map(|_| c.next_u64()).collect();
    assert_eq!(sa, sb);
    assert_ne!(sa, sc);
}

#[test]
fn grid_cells_are_listed_bay_by_bay() {
    let cells = grid_board_cells(3, 2);
    assert_eq!(cells, vec![(0, 0), (0, 1), (1, 0), (1, 1), (2, 0), (2, 1)]);
    assert!(grid_board_cells(0, 5).is_empty());
    assert!(grid_board_cells(4, 0).is_empty());
}

#[test]
fn grid_stress_counts() {
    let bays = 40u32;
    let rows = 25usize;
    let cells = grid_board_cells(bays, rows);
    assert_eq!(cells.len(), 1000);
    assert_eq!(upright_count(bays), 39);
    assert!(cells.windows(2).all(|w| w[0] < w[1]));
}

#[test]
fn upright_counts() {
    assert_eq!(upright_count(0), 0);
    assert_eq!(upright_count(1), 0);
    assert_eq!(upright_count(2), 1);
    assert_eq!(upright_count(u32::MAX), u32::MAX - 1);
}

#[test]
fn gltf_index_view_reads_back_the_indices() {
    let bits: Vec<u32> = [0.0f32, 1.0, 2.0, 3.0, 4.0, 5.0].iter().map(|p| p.to_bits()).collect();
    let idx = vec![7u32, 0xdead_beef, 65536];
    let bin = gltf_binary_buffer(&bits, &idx);
    let layout = gltf_buffer_layout(bits.len(), idx.len()).unwrap();
    for (k, &i) in idx.iter().enumerate() {
        let at = layout.position_bytes + 4 * k;
        let word = u32::from_le_bytes([bin[at], bin[at + 1], bin[at + 2], bin[at + 3]]);
        assert_eq!(word, i);
    }
}
