pub mod shape_tree;
pub mod shex;
