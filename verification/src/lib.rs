//! Core of a chunked voxel world: integer coordinates at block and chunk
//! granularity, a column/chunk store with lazy materialization through a
//! pluggable generator, a change queue that coalesces edits per chunk, a
//! load/unload orchestrator driven by viewer interest, and the
//! presentation-side bookkeeping that consumes the change records.

pub mod block;
pub mod blocs;
pub mod changes;
pub mod chunk;
pub mod draw;
pub mod gen;
pub mod items;
pub mod load;
pub mod pos;
