use mycraft::block::{BlockWrapper, Blocks, AIR_ID, DIRT_ID, GRASS_ID};
use mycraft::chunk::{
    query_neighbors, BlockGrid, Chunk, ChunkPosition, Neighbors, BLOCK_COUNT, HORIZONTAL_SLICE_SIZE,
    NEG_X, NEG_Y, NEG_Z, POS_X, POS_Y, POS_Z, X_SIZE, Y_SIZE, Z_SIZE,
};
use mycraft::cube::{Cube, MeshInfo, Vertex, FACE_INDICES};
use mycraft::mesh::{assemble, gen_indices};

fn bit(mask: u8, d: u8) -> bool {
    (mask >> d) & 1 == 1
}

fn offset(x: usize, y: usize, z: usize) -> usize {
    y * HORIZONTAL_SLICE_SIZE + x * Z_SIZE + z
}

fn grid_with(solid: &[(usize, usize, usize)]) -> BlockGrid {
    let mut blocks = vec![AIR_ID; BLOCK_COUNT];
    for &(x, y, z) in solid {
        blocks[offset(x, y, z)] = DIRT_ID;
    }
    BlockGrid::from_blocks(blocks).unwrap()
}

#[test]
fn catalog_maps_ids() {
    assert_eq!(BlockWrapper.index(GRASS_ID), Blocks::Grass);
    assert_eq!(BlockWrapper.index(DIRT_ID), Blocks::Dirt);
    assert_eq!(BlockWrapper.index(2), Blocks::Null);
    assert_eq!(BlockWrapper.index(AIR_ID), Blocks::Null);
    assert_eq!(Blocks::Grass.coords(), (0, 0));
    assert_eq!(Blocks::Dirt.coords(), (0, 1));
}

#[test]
fn grid_construction() {
    assert!(BlockGrid::from_blocks(vec![0; 10]).is_none());
    let g = Chunk::default_blocks();
    assert_eq!(g.query_block(3, 0, 4), Blocks::Dirt);
    assert_eq!(g.query_block(3, 254, 4), Blocks::Dirt);
    assert_eq!(g.query_block(3, 255, 4), Blocks::Null);
    assert_eq!(g.id(0, 255, 0), AIR_ID);
    assert_eq!(BlockGrid::filled(GRASS_ID).query_block(15, 255, 15), Blocks::Grass);
}

#[test]
fn face_mask_bit_layout() {
    let g = Chunk::default_blocks();
    let nb = Neighbors::none();
    // interior block of the top solid layer: only its top shows
    assert_eq!(query_neighbors(&g, &nb, 5, 254, 5), 0b10_0000);
    // bottom layer: the floor face shows
    assert_eq!(query_neighbors(&g, &nb, 5, 0, 5), 0b01_0000);
    // corner at x = 0, z = 0 on the bottom layer
    assert_eq!(query_neighbors(&g, &nb, 0, 0, 0), 0b01_0101);
    // corner at x = 15, z = 15 in the middle
    assert_eq!(query_neighbors(&g, &nb, 15, 100, 15), 0b00_1010);
    // a block of the air layer: air on every side but below
    assert_eq!(query_neighbors(&g, &nb, 7, 255, 7), 0b10_1111);
}

#[test]
fn loaded_neighbour_hides_boundary_face() {
    let g = Chunk::default_blocks();
    let side = Chunk::default_blocks();
    let air = BlockGrid::filled(AIR_ID);
    let nb = Neighbors { neg_z: Some(&side), pos_z: Some(&air), neg_x: Some(&side), pos_x: None };
    let m = query_neighbors(&g, &nb, 0, 10, 0);
    assert!(!bit(m, NEG_Z));
    assert!(!bit(m, NEG_X));
    let m = query_neighbors(&g, &nb, 15, 10, 15);
    assert!(bit(m, POS_Z));
    assert!(bit(m, POS_X));
}

#[test]
fn air_chunk_meshes_to_nothing() {
    let chunk = Chunk {
        position: ChunkPosition { x: 0, z: 0 },
        atlas_material_index: 0,
        blocks: BlockGrid::filled(AIR_ID),
    };
    let mesh = chunk.create_mesh(&Neighbors::none());
    assert_eq!(mesh.vertices.len(), 0);
    assert_eq!(mesh.indices.len(), 0);
}

#[test]
fn solid_chunk_shows_boundary_faces_only() {
    let g = BlockGrid::filled(DIRT_ID);
    let nb = Neighbors::none();
    for &(x, y, z) in &[(0, 0, 0), (7, 100, 3), (15, 255, 15), (4, 255, 0), (8, 0, 15), (9, 9, 9)] {
        let m = query_neighbors(&g, &nb, x, y, z);
        assert_eq!(bit(m, NEG_Z), z == 0);
        assert_eq!(bit(m, POS_Z), z == Z_SIZE - 1);
        assert_eq!(bit(m, NEG_X), x == 0);
        assert_eq!(bit(m, POS_X), x == X_SIZE - 1);
        assert_eq!(bit(m, NEG_Y), y == 0);
        assert_eq!(bit(m, POS_Y), y == Y_SIZE - 1);
    }
    let chunk = Chunk { position: ChunkPosition { x: 0, z: 0 }, atlas_material_index: 0, blocks: g };
    let mesh = chunk.create_mesh(&nb);
    let faces = 2 * 16 * 16 + 4 * 16 * 256;
    assert_eq!(mesh.vertices.len(), 4 * faces);
    assert_eq!(mesh.indices.len(), 6 * faces);
}

#[test]
fn stacked_blocks_hide_shared_face() {
    let g = grid_with(&[(5, 10, 5), (5, 11, 5)]);
    let nb = Neighbors::none();
    let lower = query_neighbors(&g, &nb, 5, 10, 5);
    let upper = query_neighbors(&g, &nb, 5, 11, 5);
    assert!(!bit(lower, POS_Y));
    assert!(!bit(upper, NEG_Y));
    assert_eq!(lower, 0b01_1111);
    assert_eq!(upper, 0b10_1111);
    let chunk = Chunk { position: ChunkPosition { x: 0, z: 0 }, atlas_material_index: 0, blocks: g };
    let mesh = chunk.create_mesh(&nb);
    assert_eq!(mesh.vertices.len(), 40);
    assert_eq!(mesh.indices.len(), 60);
    // no corner of either block lies on the shared plane y = 11 facing up or down
    assert!(mesh.vertices.iter().all(|v| !(v.y == 11 && v.ny != 0)));
}

#[test]
fn side_by_side_blocks_hide_shared_face() {
    let g = grid_with(&[(3, 4, 5), (4, 4, 5), (4, 4, 6)]);
    let nb = Neighbors::none();
    assert!(!bit(query_neighbors(&g, &nb, 3, 4, 5), POS_X));
    assert!(!bit(query_neighbors(&g, &nb, 4, 4, 5), NEG_X));
    assert!(!bit(query_neighbors(&g, &nb, 4, 4, 5), POS_Z));
    assert!(!bit(query_neighbors(&g, &nb, 4, 4, 6), NEG_Z));
}

#[test]
fn regenerated_chunk_meshes_identically() {
    let a = Chunk::new(ChunkPosition { x: 2, z: -3 }, 1);
    let b = Chunk::new(ChunkPosition { x: 2, z: -3 }, 1);
    let ma = a.create_mesh(&Neighbors::none());
    let mb = b.create_mesh(&Neighbors::none());
    assert_eq!(ma.vertices, mb.vertices);
    assert_eq!(ma.indices, mb.indices);
}

#[test]
fn default_chunk_in_isolation_face_counts() {
    let chunk = Chunk::new(ChunkPosition { x: 0, z: 0 }, 0);
    let mesh = chunk.create_mesh(&Neighbors::none());
    let top = 16 * 16;
    let bottom = 16 * 16;
    let sides = 16 * 255 * 4;
    let faces = top + bottom + sides;
    assert_eq!(faces, 16832);
    assert_eq!(mesh.vertices.len(), 4 * faces);
    assert_eq!(mesh.indices.len(), 6 * faces);
    let up = mesh.vertices.iter().filter(|v| v.ny == 1).count();
    let down = mesh.vertices.iter().filter(|v| v.ny == -1).count();
    assert_eq!(up, 4 * top);
    assert_eq!(down, 4 * bottom);
    assert!(mesh.vertices.iter().all(|v| v.y <= 255));
    assert_eq!(*mesh.indices.last().unwrap() as usize, mesh.vertices.len() - 1);
}

#[test]
fn layer_parts_assemble_to_whole_mesh() {
    let chunk = Chunk::new(ChunkPosition { x: 0, z: 0 }, 0);
    let nb = Neighbors::none();
    let parts: Vec<Vec<Vertex>> =
        (0..16).map(|i| Chunk::mesh_layers(&chunk.blocks, &nb, 16 * i, 16 * (i + 1))).collect();
    let joined = assemble(parts, chunk.world_origin(), chunk.atlas_material_index);
    let whole = chunk.create_mesh(&nb);
    assert_eq!(joined.vertices, whole.vertices);
    assert_eq!(joined.indices, whole.indices);
}

#[test]
fn indices_follow_face_template() {
    assert_eq!(FACE_INDICES, [0, 1, 2, 0, 2, 3]);
    assert_eq!(gen_indices(2), vec![0, 1, 2, 0, 2, 3, 4, 5, 6, 4, 6, 7]);
    assert!(gen_indices(0).is_empty());
}

#[test]
fn cube_places_faces_with_atlas_anchor() {
    let cube = Cube::new((2, 3, 4), 7, Blocks::Dirt, 0b10_0000, true);
    assert_eq!(cube.mesh_info.face_count, 1);
    let v = &cube.mesh_info.vertices;
    assert_eq!(v.len(), 4);
    assert_eq!(v[0], Vertex { x: 2, y: 4, z: 4, u: 0, v: 1, nx: 0, ny: 1, nz: 0 });
    assert_eq!(v[2], Vertex { x: 3, y: 4, z: 5, u: 1, v: 2, nx: 0, ny: 1, nz: 0 });
    let at_origin = Cube::new((2, 3, 4), 7, Blocks::Grass, 0b00_0001, false);
    assert_eq!(at_origin.mesh_info.vertices[1], Vertex { x: 0, y: 0, z: 0, u: 1, v: 1, nx: 0, ny: 0, nz: -1 });
    let none = Cube::new((0, 0, 0), 0, Blocks::Dirt, 0, true);
    assert_eq!(none.mesh_info.face_count, 0);
}

#[test]
fn mesh_info_full_and_append() {
    let full = MeshInfo::full((1, 1, 1));
    assert_eq!(full.face_count, 6);
    assert_eq!(full.vertices.len(), 24);
    let mut m = MeshInfo::init();
    m.append_data(NEG_Y, (0, 1), (0, 0, 0));
    assert_eq!(m.vertices[3], Vertex { x: 1, y: 0, z: 0, u: 3, v: 1, nx: 0, ny: -1, nz: 0 });
}

#[test]
fn block_vertices_follow_mask() {
    let g = Chunk::default_blocks();
    let nb = Neighbors::none();
    let info = Chunk::gen_block_vertices(&g, &nb, 0, 254, 0);
    // -Z, -X and +Y show
    assert_eq!(info.face_count, 3);
    assert_eq!(info.vertices[8].ny, 1);
    let air = Chunk::gen_block_vertices(&g, &nb, 0, 255, 0);
    assert_eq!(air.face_count, 0);
    assert_eq!(Chunk::mesh_blocks(&g, &nb, 0, 0).len(), 0);
}

#[test]
fn world_origin_scales_position() {
    let c = Chunk::new(ChunkPosition { x: -2, z: 5 }, 0);
    assert_eq!(c.world_origin(), (-32, 80));
}

#[test]
fn mesh_carries_transform_and_material() {
    let c = Chunk {
        position: ChunkPosition { x: 3, z: -1 },
        atlas_material_index: 9,
        blocks: BlockGrid::filled(AIR_ID),
    };
    let mesh = c.create_mesh(&Neighbors::none());
    assert_eq!((mesh.origin_x, mesh.origin_z), (48, -16));
    assert_eq!(mesh.material_index, 9);
}
