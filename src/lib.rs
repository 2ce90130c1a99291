mod blit_target;
mod blitable;
mod circle;
mod frame;
mod point;
mod size;
mod surface;
mod window;

pub use blitable::Blitable;
pub use blit_target::{BlitTarget, rect_cells, outline_cells, draw_clipped, outline_is_perimeter, filled_square_count, outline_count};
pub use circle::{arc, arc_from, arc_step, clamped_radius, octants, ring_hit, disk_hit, on_ring, on_disk, ring_cells, disk_cells, eight_cells, trace_arc, ring_is_symmetric, disk_is_symmetric};
pub use frame::{Frame, FrameType, frame_glyphs, frame_rows, frame_cols, frame_paint};
pub use point::{Point, fits_i16};
pub use size::Size;
pub use surface::{put, paint, is_point, point_cell, Cells};
pub use window::{Window, ConstructionError, dims_fit, draw_outside_keeps, draw_then_read, blit_places_source, blit_is_idempotent};
