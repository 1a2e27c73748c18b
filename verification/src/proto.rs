//! The messages of the `movable.Movable/Sync` exchange, as plain values.
//!
//! A client streams `Info` messages (the volume, then one `File` per path it
//! holds, then `Done`); the server answers with a stream of `Update`s.
#![allow(non_snake_case)]

use vstd::prelude::*;

verus! {

/// One content-defined chunk of a file: the gear hash at its end, its first
/// byte position and its length.
#[derive(Debug, Default, Clone, PartialEq)]
pub struct Chunk {
    pub hash: u64,
    pub start: u64,
    pub len: u32,
}

/// The chunk size bounds with which a file was split.
#[derive(Debug, Default, Clone, Copy, PartialEq)]
pub struct Params {
    pub min_size: u32,
    pub avg_size: u32,
    pub max_size: u32,
}

/// What a client holds of one file.
#[derive(Debug, Default, Clone, PartialEq)]
pub struct File {
    pub path: String,
    pub params: Option<Box<Params>>,
    pub chunks: Vec<Chunk>,
}

/// The volume that the client synchronises.
#[derive(Debug, Default, Clone, PartialEq)]
pub struct Meta {
    pub volume: String,
}

/// The payload of an `Info` message.
#[derive(Debug, Clone, PartialEq)]
pub enum InfoOneOfKind {
    Meta(Meta),
    File(File),
    Done(bool),
}

impl Default for InfoOneOfKind {
    fn default() -> (r: Self)
        ensures
            r matches InfoOneOfKind::Meta(m) && m.volume@ == Seq::<char>::empty(),
    {
        InfoOneOfKind::Meta(Meta { volume: String::new() })
    }
}

/// A message of the client's stream.
#[derive(Debug, Default, Clone, PartialEq)]
pub struct Info {
    pub Kind: Option<InfoOneOfKind>,
}

/// Asks the client to create a file.
#[derive(Debug, Default, Clone, PartialEq)]
pub struct Create {
    pub path: String,
}

/// Asks the client to delete a file.
#[derive(Debug, Default, Clone, PartialEq)]
pub struct Delete {
    pub path: String,
}

/// Asks the client to copy a file.
#[derive(Debug, Default, Clone, PartialEq)]
pub struct Copy {
    pub src_path: String,
    pub dst_path: String,
}

/// Bytes of a file at a position.
#[derive(Debug, Default, Clone, PartialEq)]
pub struct Data {
    pub data: Vec<u8>,
    pub pos: u64,
    pub len: u64,
}

/// The payload of an `Update` message.
#[derive(Debug, Clone, PartialEq)]
pub enum UpdateOneOfKind {
    Create(Create),
    Delete(Delete),
    Copy(Copy),
    Data(Data),
    Done(bool),
}

impl Default for UpdateOneOfKind {
    fn default() -> (r: Self)
        ensures
            r matches UpdateOneOfKind::Create(c) && c.path@ == Seq::<char>::empty(),
    {
        UpdateOneOfKind::Create(Create { path: String::new() })
    }
}

/// A message of the server's stream.
#[derive(Debug, Default, Clone, PartialEq)]
pub struct Update {
    pub Kind: Option<UpdateOneOfKind>,
}

} // verus!
