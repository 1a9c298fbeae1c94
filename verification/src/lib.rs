pub mod vga_buffer;
pub mod volatile_cell;
