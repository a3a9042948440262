pub mod object_path;
pub mod part;
pub mod load_out_item;
pub mod decimal;
pub mod placement;
