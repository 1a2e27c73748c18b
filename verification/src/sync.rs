//! The decisions of one synchronisation.
//!
//! First the client's messages are gathered: the volume, the files by path,
//! until `Done`. Then the files are taken in path order; for each, the bounds
//! it was chunked with are required, and what the server finds at its path
//! decides the answer: a missing file is to be deleted on the client, a
//! present one is split into chunks with the client's bounds.

use vstd::prelude::*;

use crate::chunking::{chunk_file, chunker_runs_on, cut_as_chunk, gear_cuts};
use crate::error::SyncError;
use crate::paths::PathKey;
use crate::proto::{Chunk, Delete, File, Info, InfoOneOfKind, Params, Update, UpdateOneOfKind};
use crate::table::{lists_in_path_order, with_file, FileTable};

verus! {

/// Whether more messages are wanted.
#[derive(Debug, Clone, Copy, PartialEq, Eq, Structural)]
pub enum Progress {
    /// Read the next message.
    Continue,
    /// `Done` arrived: read no further.
    Complete,
}

/// What a stream has described so far: the files by path, and whether `Done`
/// has arrived.
pub type Gathered = (Map<PathKey, (Seq<char>, File)>, bool);

/// One message taken into what has been gathered: a file is recorded, `Done`
/// (whatever it carries) completes, a volume changes nothing here, and a
/// message without a payload is refused.
pub open spec fn gather_step(g: Gathered, m: Info) -> Result<Gathered, SyncError> {
    match m.Kind {
        None => Err(SyncError::UnexpectedMessage),
        Some(InfoOneOfKind::Meta(_)) => Ok(g),
        Some(InfoOneOfKind::File(f)) => Ok((with_file(g.0, f), g.1)),
        Some(InfoOneOfKind::Done(_)) => Ok((g.0, true)),
    }
}

/// The messages taken in turn, from `g` on: nothing more is read once the
/// description is complete, and the first refused message ends it.
pub open spec fn gather(g: Gathered, msgs: Seq<Info>) -> Result<Gathered, SyncError>
    decreases msgs.len(),
{
    if g.1 || msgs.len() == 0 {
        Ok(g)
    } else {
        match gather_step(g, msgs[0]) {
            Err(e) => Err(e),
            Ok(g2) => gather(g2, msgs.drop_first()),
        }
    }
}

/// What a whole stream gives: the files by path once `Done` has arrived;
/// `Dropped` when the stream ends before it; the error of the first refused
/// message.
pub open spec fn stream_outcome(msgs: Seq<Info>) -> Result<Map<PathKey, (Seq<char>, File)>, SyncError> {
    match gather((Map::empty(), false), msgs) {
        Err(e) => Err(e),
        Ok(g) => if g.1 {
            Ok(g.0)
        } else {
            Err(SyncError::Dropped)
        },
    }
}

/// The stream without its volume messages.
pub open spec fn without_volumes(msgs: Seq<Info>) -> Seq<Info>
    decreases msgs.len(),
{
    if msgs.len() == 0 {
        msgs
    } else if msgs[0].Kind matches Some(InfoOneOfKind::Meta(_)) {
        without_volumes(msgs.drop_first())
    } else {
        seq![msgs[0]] + without_volumes(msgs.drop_first())
    }
}

proof fn lemma_gather_stops_at_done(g: Gathered, msgs1: Seq<Info>, msgs2: Seq<Info>, i: int)
    requires
        0 <= i < msgs1.len(),
        i < msgs2.len(),
        msgs1[i].Kind matches Some(InfoOneOfKind::Done(_)),
        msgs2[i].Kind matches Some(InfoOneOfKind::Done(_)),
        forall|j: int| 0 <= j < i ==> msgs1[j] == msgs2[j],
    ensures
        gather(g, msgs1) == gather(g, msgs2),
    decreases i,
{
    if !g.1 {
        if i == 0 {
            assert(gather_step(g, msgs1[0]) == gather_step(g, msgs2[0]));
            let g2 = (g.0, true);
            assert(gather(g2, msgs1.drop_first()) == Ok::<Gathered, SyncError>(g2));
            assert(gather(g2, msgs2.drop_first()) == Ok::<Gathered, SyncError>(g2));
        } else {
            assert(msgs1[0] == msgs2[0]);
            match gather_step(g, msgs1[0]) {
                Err(_) => {},
                Ok(g2) => {
                    lemma_gather_stops_at_done(g2, msgs1.drop_first(), msgs2.drop_first(), i - 1);
                },
            }
        }
    }
}

/// Nothing after `Done` matters, nor what `Done` carries: two streams that
/// agree before a `Done` that both hold at the same place have the same
/// outcome, whatever follows it.
pub proof fn lemma_stream_ends_at_done(msgs1: Seq<Info>, msgs2: Seq<Info>, i: int)
    requires
        0 <= i < msgs1.len(),
        i < msgs2.len(),
        msgs1[i].Kind matches Some(InfoOneOfKind::Done(_)),
        msgs2[i].Kind matches Some(InfoOneOfKind::Done(_)),
        forall|j: int| 0 <= j < i ==> msgs1[j] == msgs2[j],
    ensures
        stream_outcome(msgs1) == stream_outcome(msgs2),
{
    lemma_gather_stops_at_done((Map::empty(), false), msgs1, msgs2, i);
}

proof fn lemma_gather_without_volumes(g: Gathered, msgs: Seq<Info>)
    ensures
        gather(g, msgs) == gather(g, without_volumes(msgs)),
    decreases msgs.len(),
{
    if msgs.len() > 0 {
        let rest = msgs.drop_first();
        lemma_gather_without_volumes(g, rest);
        if msgs[0].Kind matches Some(InfoOneOfKind::Meta(_)) {
            assert(without_volumes(msgs) == without_volumes(rest));
        } else {
            let w = without_volumes(msgs);
            assert(w == seq![msgs[0]] + without_volumes(rest));
            assert(w[0] == msgs[0]);
            assert(w.drop_first() =~= without_volumes(rest));
            if !g.1 {
                match gather_step(g, msgs[0]) {
                    Err(_) => {},
                    Ok(g2) => {
                        lemma_gather_without_volumes(g2, rest);
                    },
                }
            }
        }
    } else {
        assert(without_volumes(msgs) == msgs);
    }
}

/// Volumes never change the outcome: a stream has the outcome of the same
/// stream without its volume messages, so adding, removing or changing them
/// changes nothing.
pub proof fn lemma_stream_ignores_volumes(msgs: Seq<Info>)
    ensures
        stream_outcome(msgs) == stream_outcome(without_volumes(msgs)),
{
    lemma_gather_without_volumes((Map::empty(), false), msgs);
}

/// What the collector has gathered, as the stream laws see it.
pub open spec fn gathered(c: Collector) -> Gathered {
    (c.files_spec(), c.complete_spec())
}


/// What the client has described so far.
pub struct Collector {
    volume: Option<String>,
    files: FileTable,
    complete: bool,
}

impl Collector {
    /// The volume last announced, if any.
    pub closed spec fn volume_spec(&self) -> Option<Seq<char>> {
        match self.volume {
            Some(v) => Some(v@),
            None => None,
        }
    }

    /// The files described, by path.
    pub closed spec fn files_spec(&self) -> Map<PathKey, (Seq<char>, File)> {
        self.files@
    }

    /// Whether `Done` has arrived.
    pub closed spec fn complete_spec(&self) -> bool {
        self.complete
    }

    /// Nothing described yet.
    pub fn new() -> (c: Collector)
        ensures
            c.volume_spec() == None::<Seq<char>>,
            c.files_spec() == Map::<PathKey, (Seq<char>, File)>::empty(),
            !c.complete_spec(),
    {
        Collector { volume: None, files: FileTable::new(), complete: false }
    }

    /// The volume last announced, if any.
    pub fn volume(&self) -> (r: Option<&String>)
        ensures
            match r {
                Some(v) => self.volume_spec() == Some(v@),
                None => self.volume_spec() == None::<Seq<char>>,
            },
    {
        match &self.volume {
            Some(v) => Some(v),
            None => None,
        }
    }

    /// The file described under the path of `path`, if any.
    pub fn file(&self, path: &str) -> (r: Option<&File>)
        ensures
            r is Some <==> self.files_spec().contains_key(crate::paths::path_components(path@)),
            r matches Some(f) ==> *f == self.files_spec()[crate::paths::path_components(path@)].1,
    {
        self.files.get(path)
    }

    /// Takes in one message of the client's stream, which must not come after
    /// `Done`.
    ///
    /// A volume replaces the one announced before; a file is recorded under
    /// its path; `Done`, whatever it carries, completes the description; a
    /// message without a payload is refused with `UnexpectedMessage`, and
    /// leaves the description as it was.
    pub fn accept(&mut self, info: Info) -> (r: Result<Progress, SyncError>)
        requires
            !old(self).complete_spec(),
        ensures
            gather_step(gathered(*old(self)), info) == match r {
                Ok(_) => Ok::<Gathered, SyncError>(gathered(*final(self))),
                Err(e) => Err::<Gathered, SyncError>(e),
            },
            r == Ok::<Progress, SyncError>(Progress::Complete) <==> final(self).complete_spec(),
            match info.Kind {
                None => {
                    &&& r == Err::<Progress, SyncError>(SyncError::UnexpectedMessage)
                    &&& final(self).volume_spec() == old(self).volume_spec()
                    &&& final(self).files_spec() == old(self).files_spec()
                    &&& !final(self).complete_spec()
                },
                Some(InfoOneOfKind::Meta(meta)) => {
                    &&& r == Ok::<Progress, SyncError>(Progress::Continue)
                    &&& final(self).volume_spec() == Some(meta.volume@)
                    &&& final(self).files_spec() == old(self).files_spec()
                    &&& !final(self).complete_spec()
                },
                Some(InfoOneOfKind::File(file)) => {
                    &&& r == Ok::<Progress, SyncError>(Progress::Continue)
                    &&& final(self).volume_spec() == old(self).volume_spec()
                    &&& final(self).files_spec() == with_file(old(self).files_spec(), file)
                    &&& !final(self).complete_spec()
                },
                Some(InfoOneOfKind::Done(_)) => {
                    &&& r == Ok::<Progress, SyncError>(Progress::Complete)
                    &&& final(self).volume_spec() == old(self).volume_spec()
                    &&& final(self).files_spec() == old(self).files_spec()
                    &&& final(self).complete_spec()
                },
            },
    {
        match info.Kind {
            None => Err(SyncError::UnexpectedMessage),
            Some(InfoOneOfKind::Meta(meta)) => {
                self.volume = Some(meta.volume);
                Ok(Progress::Continue)
            },
            Some(InfoOneOfKind::File(file)) => {
                self.files.insert(file);
                Ok(Progress::Continue)
            },
            Some(InfoOneOfKind::Done(_)) => {
                self.complete = true;
                Ok(Progress::Complete)
            },
        }
    }

    /// The described files in path order, each under the text its path was
    /// first seen with; `Dropped` when the stream ended before `Done`.
    pub fn finish(self) -> (r: Result<Vec<(String, File)>, SyncError>)
        ensures
            r is Ok <==> self.complete_spec(),
            !self.complete_spec() <==> r == Err::<Vec<(String, File)>, SyncError>(SyncError::Dropped),
            r matches Ok(out) ==> lists_in_path_order(out@, self.files_spec()),
    {
        if !self.complete {
            return Err(SyncError::Dropped);
        }
        Ok(self.files.into_sorted())
    }
}

/// The chunk size bounds a file was split with; `MissingParams` when it
/// carries none.
pub fn file_params(file: &File) -> (r: Result<Params, SyncError>)
    ensures
        match file.params {
            Some(p) => r == Ok::<Params, SyncError>(*p),
            None => r == Err::<Params, SyncError>(SyncError::MissingParams),
        },
{
    match &file.params {
        Some(p) => Ok(**p),
        None => Err(SyncError::MissingParams),
    }
}

/// What the server finds at a file's path.
pub enum Presence<'a> {
    /// Nothing is there.
    Missing,
    /// Whether something is there could not be told.
    Unreadable,
    /// The file is there, with these bytes.
    Present(&'a [u8]),
}

/// The answer for one file.
pub enum Reply {
    /// A message for the client.
    Send(Update),
    /// How the server's copy splits into chunks.
    Chunks(Vec<Chunk>),
}

/// `u` asks the client to delete `path`.
pub open spec fn is_delete_of(u: Update, path: Seq<char>) -> bool {
    u.Kind matches Some(UpdateOneOfKind::Delete(d)) && d.path@ == path
}

/// The answer for the file under `path`, chunked with `params`, given what
/// the server finds there: a missing file is to be deleted on the client
/// (under `path` as given); a present one is split into chunks with
/// `params`; when nothing can be told the answer is `Unreadable`, and when
/// the chunker would not run to its end on the file with the bounds,
/// `ParamsOutOfRange`.
pub fn reply(path: &String, params: &Params, found: Presence) -> (r: Result<Reply, SyncError>)
    ensures
        match found {
            Presence::Missing => (r matches Ok(Reply::Send(u)) && is_delete_of(u, path@)),
            Presence::Unreadable => r == Err::<Reply, SyncError>(SyncError::Unreadable),
            Presence::Present(data) => {
                if chunker_runs_on(data@.len(), params.min_size, params.avg_size, params.max_size) {
                    (r matches Ok(Reply::Chunks(chunks)) && chunks@ == gear_cuts(
                        data@,
                        params.min_size,
                        params.avg_size,
                        params.max_size,
                    ).map_values(|c: (u64, usize, usize)| cut_as_chunk(c)))
                } else {
                    r == Err::<Reply, SyncError>(SyncError::ParamsOutOfRange)
                }
            },
        },
{
    match found {
        Presence::Missing => {
            let update = Update { Kind: Some(UpdateOneOfKind::Delete(Delete { path: path.clone() })) };
            Ok(Reply::Send(update))
        },
        Presence::Unreadable => Err(SyncError::Unreadable),
        Presence::Present(data) => match chunk_file(data, params) {
            Ok(chunks) => Ok(Reply::Chunks(chunks)),
            Err(e) => Err(e),
        },
    }
}

} // verus!
