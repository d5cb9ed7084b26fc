//! Music-theory core of a chord puzzle: pitch classes, a catalog of chord
//! kinds, recognition of a chord from the notes that sound together, and the
//! rule by which colliding clusters of notes merge.

pub mod chord;
pub mod cluster;
pub mod level;
pub mod note;
pub mod objective;
pub mod playing;
pub mod recognize;
pub mod theorems;
pub mod trusted;
