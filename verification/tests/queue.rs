use ourcraft::block::Block;
use ourcraft::blocs::Blocs;
use ourcraft::changes::{Changes, ChunkChanges};
use ourcraft::draw::{decide_change, process_bloc_changes, ChangeAction, ChunkEntities};
use ourcraft::gen::{DebugGen, SoilRow};
use ourcraft::load::LoadedCols;
use ourcraft::pos::{BlocPos, ChunkPos, ColPos, Pos3d, Realm, Y_CHUNKS};

fn chunk(x: i32, y: i32, z: i32) -> ChunkPos {
    Pos3d { x, y, z, realm: Realm::Overworld }
}

fn dirt_gen() -> DebugGen {
    let rows = vec![SoilRow { t_min: 0, t_max: 1000, h_min: 0, h_max: 1000, block: Block::Dirt }];
    DebugGen::new(1, rows).unwrap()
}

#[test]
fn two_edits_merge_into_one_record_with_the_union_of_offsets() {
    let mut q = Changes::new();
    let c = chunk(3, 0, 3);
    q.insert(c, ChunkChanges::Edited(vec![(3, 5, 3)]));
    q.insert(c, ChunkChanges::Edited(vec![(4, 6, 4)]));
    let (pc, rec) = q.pop().unwrap();
    assert_eq!(pc, c);
    match rec {
        ChunkChanges::Edited(offs) => {
            assert_eq!(offs.len(), 2);
            assert!(offs.contains(&(3, 5, 3)));
            assert!(offs.contains(&(4, 6, 4)));
        },
        ChunkChanges::Created => panic!("expected an edit record"),
    }
    assert!(q.pop().is_none());
}

#[test]
fn merging_the_same_offset_twice_keeps_it_once() {
    let mut q = Changes::new();
    let c = chunk(0, 0, 0);
    q.insert(c, ChunkChanges::Edited(vec![(1, 2, 3)]));
    q.insert(c, ChunkChanges::Edited(vec![(1, 2, 3)]));
    match q.pop().unwrap().1 {
        ChunkChanges::Edited(offs) => assert_eq!(offs.len(), 1),
        ChunkChanges::Created => panic!("expected an edit record"),
    }
}

#[test]
fn a_full_rebuild_absorbs_edits() {
    let mut q = Changes::new();
    let c = chunk(1, 1, 1);
    q.insert(c, ChunkChanges::Created);
    q.insert(c, ChunkChanges::Edited(vec![(0, 0, 0)]));
    assert!(matches!(q.pop().unwrap().1, ChunkChanges::Created));
    assert!(q.pop().is_none());
}

#[test]
fn records_drain_one_per_step_oldest_first() {
    let mut q = Changes::new();
    q.insert(chunk(0, 0, 0), ChunkChanges::Created);
    q.insert(chunk(1, 0, 0), ChunkChanges::Created);
    q.insert(chunk(2, 0, 0), ChunkChanges::Created);
    assert_eq!(q.pop().unwrap().0, chunk(0, 0, 0));
    assert_eq!(q.pop().unwrap().0, chunk(1, 0, 0));
    assert_eq!(q.pop().unwrap().0, chunk(2, 0, 0));
    assert!(q.pop().is_none());
}

#[test]
fn delivery_decisions_follow_interest_and_readiness() {
    let created = ChunkChanges::Created;
    let edited = ChunkChanges::Edited(vec![(0, 0, 0)]);
    assert_eq!(decide_change(false, &created, true), ChangeAction::Discard);
    assert_eq!(decide_change(false, &edited, false), ChangeAction::Discard);
    assert_eq!(decide_change(true, &created, false), ChangeAction::Build);
    assert_eq!(decide_change(true, &edited, true), ChangeAction::Patch);
    assert_eq!(decide_change(true, &edited, false), ChangeAction::Requeue);
}

#[test]
fn a_record_outside_the_interest_set_is_never_delivered() {
    let gen = dirt_gen();
    let mut w = Blocs::new();
    let far = ColPos { x: 50, z: 50, realm: Realm::Overworld };
    w.load_col(far, &gen);
    let mut cols = LoadedCols::new();
    let viewer = ColPos { x: 0, z: 0, realm: Realm::Overworld };
    let unloads = cols.update_viewers(vec![viewer], 2);
    assert!(unloads.is_empty());
    let ents = ChunkEntities::new();
    let (c, _rec, action) = process_bloc_changes(&mut w, &cols, &ents).unwrap();
    assert_eq!(action, ChangeAction::Discard);
    assert_eq!(c.to_col_pos(), far);
}

#[test]
fn an_edit_without_a_resource_is_requeued_not_dropped() {
    let gen = dirt_gen();
    let mut w = Blocs::new();
    let pos: BlocPos = Pos3d { x: 1, y: 31, z: 1, realm: Realm::Overworld };
    let col = pos.to_col_pos();
    w.load_col(col, &gen);
    while w.changes.pop().is_some() {}
    w.write(pos, Block::Stone);

    let mut cols = LoadedCols::new();
    let viewer = ColPos { x: 0, z: 0, realm: Realm::Overworld };
    cols.update_viewers(vec![viewer], 4);
    let ents = ChunkEntities::new();
    let (c, rec, action) = process_bloc_changes(&mut w, &cols, &ents).unwrap();
    assert_eq!(action, ChangeAction::Requeue);
    assert!(matches!(rec, ChunkChanges::Edited(_)));
    // The record is still pending, offsets intact.
    let (c2, rec2, action2) = process_bloc_changes(&mut w, &cols, &ents).unwrap();
    assert_eq!(c2, c);
    assert_eq!(action2, ChangeAction::Requeue);
    match rec2 {
        ChunkChanges::Edited(offs) => assert_eq!(offs, vec![(1, 15, 1)]),
        ChunkChanges::Created => panic!("expected an edit record"),
    }
}

#[test]
fn reentering_interest_yields_a_full_rebuild() {
    let gen = dirt_gen();
    let mut w = Blocs::new();
    let col = ColPos { x: 0, z: 0, realm: Realm::Overworld };
    let mut cols = LoadedCols::new();
    let viewer = ColPos { x: 0, z: 0, realm: Realm::Overworld };
    cols.update_viewers(vec![viewer], 0);
    assert_eq!(cols.next_load(), Some(col));
    assert_eq!(cols.next_load(), None);
    w.load_col(col, &gen);
    assert!(matches!(w.changes.pop().unwrap().1, ChunkChanges::Created));
    while w.changes.pop().is_some() {}

    // The viewer walks away: the column is unloaded and its records die.
    let away = ColPos { x: 100, z: 100, realm: Realm::Overworld };
    let unloads = cols.update_viewers(vec![away], 0);
    assert_eq!(unloads, vec![col]);
    w.unload_col(col);
    assert!(!w.has_col(col));

    // The viewer comes back: the column is reloaded, and the next access
    // produces fresh Created records for a full rebuild.
    cols.update_viewers(vec![viewer], 0);
    assert_eq!(cols.next_load(), Some(col));
    w.load_col(col, &gen);
    let (c, rec) = w.changes.pop().unwrap();
    assert_eq!(c.to_col_pos(), col);
    assert!(matches!(rec, ChunkChanges::Created));
}

#[test]
fn teardown_removes_exactly_the_columns_chunk_slots() {
    let mut ents = ChunkEntities::new();
    let col = ColPos { x: 2, z: -3, realm: Realm::Overworld };
    for cy in 0..Y_CHUNKS {
        ents.insert(chunk(2, cy as i32, -3), 1000 + cy as u64);
    }
    ents.insert(chunk(9, 0, 9), 1);
    let removed = ents.on_col_unload(col);
    assert_eq!(removed.len(), Y_CHUNKS);
    for cy in 0..Y_CHUNKS {
        assert!(ents.get(chunk(2, cy as i32, -3)).is_none());
        assert!(removed.contains(&(1000 + cy as u64)));
    }
    assert_eq!(ents.get(chunk(9, 0, 9)), Some(1));
    // A second teardown of the same column removes nothing more.
    assert!(ents.on_col_unload(col).is_empty());
}

#[test]
fn load_instructions_come_one_per_step_with_backlog_preserved() {
    let mut cols = LoadedCols::new();
    let viewer = ColPos { x: 0, z: 0, realm: Realm::Overworld };
    cols.update_viewers(vec![viewer], 1);
    let mut seen = Vec::new();
    while let Some(c) = cols.next_load() {
        assert!(!seen.contains(&c));
        seen.push(c);
    }
    // A radius-1 square holds nine columns.
    assert_eq!(seen.len(), 9);
    for dx in -1..=1 {
        for dz in -1..=1 {
            assert!(seen.contains(&ColPos { x: dx, z: dz, realm: Realm::Overworld }));
        }
    }
    assert!(cols.has_interest(ColPos { x: 1, z: 1, realm: Realm::Overworld }));
    assert!(!cols.has_interest(ColPos { x: 2, z: 0, realm: Realm::Overworld }));
    assert!(!cols.has_interest(ColPos { x: 0, z: 0, realm: Realm::Aether }));
}
