//! A markup-tree builder: typed nodes (text leaves, anchor elements) stored in
//! an arena, linked into a forest by a mutation protocol that keeps every tree
//! acyclic and single-parented, and rendered to a markup string.
pub mod html;
pub mod my_math;
