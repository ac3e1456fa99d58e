use mycraft::chunk_loader::{
    chunked, mesh_list_action, ChunkLoader, ChunkReload, MeshListAction, Step, RENDERED_CHUNKS_LENGTH,
};
use std::collections::HashSet;

fn positions(loader: &ChunkLoader) -> HashSet<(i32, i32)> {
    let mut set = HashSet::new();
    for i in 0..RENDERED_CHUNKS_LENGTH as i32 {
        for j in 0..RENDERED_CHUNKS_LENGTH as i32 {
            let c = loader.chunks.index((i, j));
            set.insert((c.position.x, c.position.z));
        }
    }
    set
}

fn square(cx: i32, cz: i32) -> HashSet<(i32, i32)> {
    let mut set = HashSet::new();
    for x in cx - 1..=cx + 1 {
        for z in cz - 1..=cz + 1 {
            set.insert((x, z));
        }
    }
    set
}

#[test]
fn chunk_coordinates_floor() {
    assert_eq!(chunked(0), 0);
    assert_eq!(chunked(15), 0);
    assert_eq!(chunked(16), 1);
    assert_eq!(chunked(-1), -1);
    assert_eq!(chunked(-16), -1);
    assert_eq!(chunked(-17), -2);
    assert_eq!(chunked(i64::MIN), i64::MIN / 16);
}

#[test]
fn new_window_is_centred_on_origin() {
    let loader = ChunkLoader::new(4, 2);
    assert_eq!(positions(&loader), square(0, 0));
    assert_eq!(loader.chunks.index((0, 0)).position.x, -1);
    assert_eq!(loader.chunks.index((2, 1)).position.z, 0);
    for i in 0..3 {
        for j in 0..3 {
            assert_eq!(loader.chunks.index((i, j)).atlas_material_index, 4);
        }
    }
    let all = loader.initialize_chunks();
    assert_eq!(all.len(), 9);
    for (k, r) in all.iter().enumerate() {
        assert_eq!(*r, ChunkReload { column: k / 3, row: k % 3, mesh_slot: 2 + k });
    }
}

#[test]
fn one_chunk_move_scrolls_one_line() {
    let mut loader = ChunkLoader::new(0, 0);
    let reloads = loader.frame_update(16, 3);
    assert_eq!(loader.center_chunk_position.x, 1);
    assert_eq!(loader.center_chunk_position.z, 0);
    assert_eq!(reloads.len(), RENDERED_CHUNKS_LENGTH);
    for (k, r) in reloads.iter().enumerate() {
        assert_eq!(r.column, 2);
        assert_eq!(r.row, k);
        // the slots that the scrolled-out column held
        assert_eq!(r.mesh_slot, k);
    }
    let now = positions(&loader);
    assert_eq!(now, square(1, 0));
    for z in -1..=1 {
        assert!(!now.contains(&(-1, z)));
    }
    // the chunks that stayed keep their slots
    assert_eq!(loader.chunks.linearize_index((0, 0)), 3);
}

#[test]
fn each_direction_scrolls() {
    let mut loader = ChunkLoader::new(6, 0);
    let r = loader.shift(Step::NegZ);
    assert!(r.iter().all(|c| loader.chunks.index((c.column as i32, c.row as i32)).atlas_material_index == 6));
    assert_eq!(positions(&loader), square(0, -1));
    assert!(r.iter().all(|c| c.row == 0));
    let r = loader.shift(Step::NegX);
    assert_eq!(positions(&loader), square(-1, -1));
    assert!(r.iter().all(|c| c.column == 0));
    let r = loader.shift(Step::PosZ);
    assert_eq!(positions(&loader), square(-1, 0));
    assert!(r.iter().all(|c| c.row == 2));
    let places = loader.mark_chunks_to_reload(Step::PosX);
    assert_eq!(places, vec![(2, 0), (2, 1), (2, 2)]);
}

#[test]
fn standing_still_changes_nothing() {
    let mut loader = ChunkLoader::new(0, 0);
    assert!(loader.frame_update(5, 10).is_empty());
    assert!(loader.frame_update(-1, -1).len() == 3 * 3);
    assert_eq!(positions(&loader), square(-1, -1));
}

#[test]
fn long_jump_recentres_window() {
    let mut loader = ChunkLoader::new(0, 0);
    let reloads = loader.frame_update(16 * 5, -16 * 2);
    assert_eq!(reloads.len(), 3 * 3);
    assert_eq!(positions(&loader), square(5, -2));
}

#[test]
fn diagonal_move_lists_final_places_and_slots() {
    let mut loader = ChunkLoader::new(0, 4);
    let reloads = loader.frame_update(16, 16);
    assert_eq!(loader.center_chunk_position.x, 1);
    assert_eq!(loader.center_chunk_position.z, 1);
    assert_eq!(reloads.len(), 9);
    let mut slots = HashSet::new();
    let mut places = HashSet::new();
    for r in &reloads {
        let place = (r.column as i32, r.row as i32);
        assert_eq!(r.mesh_slot, 4 + loader.chunks.linearize_index(place));
        let c = loader.chunks.index(place);
        assert_eq!((c.position.x, c.position.z), (r.column as i32, r.row as i32));
        slots.insert(r.mesh_slot);
        places.insert(place);
    }
    assert_eq!(slots, (4..13).collect::<HashSet<usize>>());
    assert_eq!(places.len(), 9);
}

#[test]
fn neighbours_come_from_the_window() {
    let loader = ChunkLoader::new(0, 0);
    let nb = loader.neighbors(0, 1);
    assert!(nb.neg_x.is_none());
    assert!(nb.pos_x.is_some());
    assert!(nb.neg_z.is_some() && nb.pos_z.is_some());
    let centre = loader.chunk_mesh(1, 1);
    assert_eq!((centre.origin_x, centre.origin_z), (0, 0));
    assert_eq!(loader.chunk_mesh(2, 0).origin_x, 16);
    // the centre chunk has all four sides loaded: only top and bottom faces
    assert_eq!(centre.vertices.len(), 4 * 2 * 256);
    let corner = loader.chunk_mesh(0, 0);
    assert_eq!(corner.vertices.len(), 4 * (2 * 256 + 2 * 16 * 255));
}

#[test]
fn mesh_list_splices_or_appends() {
    assert_eq!(mesh_list_action(5, 3), MeshListAction::Replace(3));
    assert_eq!(mesh_list_action(5, 5), MeshListAction::Append);
    assert_eq!(mesh_list_action(0, 0), MeshListAction::Append);
}

#[test]
fn try_frame_update_rejects_unrepresentable_window() {
    let mut loader = ChunkLoader::new(0, 0);
    assert!(loader.try_frame_update(i64::MAX, 0).is_none());
    assert_eq!(positions(&loader), square(0, 0));
    let r = loader.try_frame_update(0, 20).unwrap();
    assert_eq!(r.len(), 3);
    assert_eq!(positions(&loader), square(0, 1));
}
