use ourcraft::block::Block;
use ourcraft::blocs::Blocs;
use ourcraft::changes::ChunkChanges;
use ourcraft::gen::{DebugGen, SoilRow, Soils, GEN_DEPTH};
use ourcraft::pos::{BlocPos, ColPos, Pos3d, Realm};

fn stone_rows() -> Vec<SoilRow> {
    vec![
        SoilRow { t_min: 0, t_max: 100, h_min: 0, h_max: 100, block: Block::Dirt },
        SoilRow { t_min: 400, t_max: 600, h_min: 400, h_max: 600, block: Block::Stone },
    ]
}

fn world_with(col: ColPos) -> (Blocs, DebugGen) {
    let gen = DebugGen::new(7, stone_rows()).unwrap();
    let mut w = Blocs::new();
    w.load_col(col, &gen);
    (w, gen)
}

#[test]
fn scenario_write_stone_then_read_it_back() {
    let pos: BlocPos = Pos3d { x: 51, y: 5, z: 51, realm: Realm::Overworld };
    let col = pos.to_col_pos();
    assert_eq!(col, ColPos { x: 3, z: 3, realm: Realm::Overworld });
    let (chunk, local) = pos.to_chunked();
    assert_eq!((chunk.x, chunk.y, chunk.z), (3, 0, 3));
    assert_eq!(local, (3, 5, 3));

    let (mut w, gen) = world_with(col);
    w.write(pos, Block::Stone);
    assert_eq!(w.read(pos, &gen), Block::Stone);
}

#[test]
fn write_then_read_at_negative_coordinates() {
    let pos: BlocPos = Pos3d { x: -1, y: 40, z: -33, realm: Realm::Overworld };
    let (mut w, gen) = world_with(pos.to_col_pos());
    w.write(pos, Block::Coal);
    assert_eq!(w.read(pos, &gen), Block::Coal);
}

#[test]
fn read_triggers_generation_of_an_absent_column() {
    let gen = DebugGen::new(7, stone_rows()).unwrap();
    let mut w = Blocs::new();
    // The flat debug profile puts Stone in a three-block layer under the
    // surface and air above it.
    let surface: BlocPos = Pos3d { x: 5, y: 32, z: 5, realm: Realm::Overworld };
    let sky: BlocPos = Pos3d { x: 5, y: 60, z: 5, realm: Realm::Overworld };
    assert!(!w.has_col(surface.to_col_pos()));
    assert_eq!(w.read(surface, &gen), Block::Stone);
    assert!(w.has_col(surface.to_col_pos()));
    assert_eq!(w.read(sky, &gen), Block::Air);
}

#[test]
fn generation_is_deterministic_across_worlds() {
    let gen = DebugGen::new(7, stone_rows()).unwrap();
    let mut w1 = Blocs::new();
    let mut w2 = Blocs::new();
    for y in 28..36 {
        let p: BlocPos = Pos3d { x: 100, y, z: -100, realm: Realm::Overworld };
        assert_eq!(w1.read(p, &gen), w2.read(p, &gen));
    }
}

#[test]
fn generated_soil_layer_has_the_configured_depth() {
    let gen = DebugGen::new(7, stone_rows()).unwrap();
    let mut w = Blocs::new();
    let col = ColPos { x: 0, z: 0, realm: Realm::Overworld };
    w.load_col(col, &gen);
    let mut stones = 0;
    for y in 0..64 {
        let p: BlocPos = Pos3d { x: 0, y, z: 0, realm: Realm::Overworld };
        if w.read(p, &gen) == Block::Stone {
            stones += 1;
        }
    }
    assert_eq!(stones, GEN_DEPTH);
    let top: BlocPos = Pos3d { x: 0, y: 32, z: 0, realm: Realm::Overworld };
    let below: BlocPos = Pos3d { x: 0, y: 29, z: 0, realm: Realm::Overworld };
    assert_eq!(w.read(top, &gen), Block::Stone);
    assert_eq!(w.read(below, &gen), Block::Air);
}

#[test]
fn set_yrange_rejects_out_of_bounds_height_ranges() {
    let col = ColPos { x: 0, z: 0, realm: Realm::Overworld };
    let (mut w, gen) = world_with(col);
    assert!(w.set_yrange(col, (0, 0), 128, 3, Block::Dirt).is_err());
    assert!(w.set_yrange(col, (0, 0), -1, 3, Block::Dirt).is_err());
    assert!(w.set_yrange(col, (0, 0), 1, 3, Block::Dirt).is_err());
    assert!(w.set_yrange(col, (0, 0), 2, 3, Block::Dirt).is_ok());
    for y in 0..3 {
        let p: BlocPos = Pos3d { x: 0, y, z: 0, realm: Realm::Overworld };
        assert_eq!(w.read(p, &gen), Block::Dirt);
    }
}

#[test]
fn unload_destroys_the_column_and_discards_its_records() {
    let pos: BlocPos = Pos3d { x: 1, y: 31, z: 1, realm: Realm::Overworld };
    let col = pos.to_col_pos();
    let (mut w, _gen) = world_with(col);
    while w.changes.pop().is_some() {}
    w.write(pos, Block::Coal);
    assert_eq!(w.changes.len(), 1);
    w.unload_col(col);
    assert!(!w.has_col(col));
    assert_eq!(w.changes.len(), 0);
    assert!(w.changes.pop().is_none());
}

#[test]
fn soils_table_rejects_missing_or_malformed_data() {
    assert!(Soils::from_rows(Vec::new()).is_err());
    let bad = vec![SoilRow { t_min: 10, t_max: 0, h_min: 0, h_max: 1, block: Block::Dirt }];
    assert!(Soils::from_rows(bad).is_err());
    assert!(Soils::from_rows(stone_rows()).is_ok());
    assert!(DebugGen::new(1, Vec::new()).is_err());
}

#[test]
fn soils_closest_picks_the_nearest_row() {
    let soils = Soils::from_rows(stone_rows()).unwrap();
    assert_eq!(soils.closest(500, 500), (Block::Stone, 0));
    assert_eq!(soils.closest(50, 50), (Block::Dirt, 0));
    // 20 from the first row's t-interval; far from the second row.
    assert_eq!(soils.closest(120, 0), (Block::Dirt, 20));
    // Ties go to the first row.
    assert_eq!(soils.closest(250, 250), (Block::Dirt, 300));
}
