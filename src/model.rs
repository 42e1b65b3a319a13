use vstd::prelude::*;
use crate::schema::strings_view;

verus! {

#[derive(Debug)]
pub struct InfoFile {
    pub length: i64,
    pub md5sum: Option<String>,
    pub path: Vec<String>,
}

#[derive(Debug)]
pub struct Info {
    pub piece_length: i64,
    pub pieces: Vec<Vec<u8>>,
    pub private: Option<bool>,
    pub name: String,
    pub files: Option<Vec<InfoFile>>,
    pub length: Option<i64>,
    pub md5sum: Option<String>,
}

#[derive(Debug)]
pub struct TorrentMetadata {
    pub announce: String,
    pub announce_list: Option<Vec<Vec<String>>>,
    pub comment: Option<String>,
    pub created_by: Option<String>,
    pub creation_date: Option<i64>,
    pub encoding: Option<String>,
    pub info: Info,
    pub info_hash: Vec<u8>,
}

#[derive(Debug)]
pub struct TrackerResponsePeer {
    pub peer_id: Option<String>,
    pub ip: String,
    pub port: i64,
}

#[derive(Debug)]
pub struct TrackerSuccessResponse {
    pub interval: i64,
    pub min_interval: Option<i64>,
    pub tracker_id: Option<String>,
    pub complete: i64,
    pub incomplete: i64,
    pub peers: Vec<TrackerResponsePeer>,
}

#[derive(Debug)]
pub enum TrackerResponse {
    Failure(String),
    Warning(String),
    Success(TrackerSuccessResponse),
}

pub struct InfoFileV {
    pub length: int,
    pub md5sum: Option<Seq<char>>,
    pub path: Seq<Seq<char>>,
}

pub struct InfoV {
    pub piece_length: int,
    pub pieces: Seq<Seq<u8>>,
    pub private: Option<bool>,
    pub name: Seq<char>,
    pub files: Option<Seq<InfoFileV>>,
    pub length: Option<int>,
    pub md5sum: Option<Seq<char>>,
}

/// A metadata record as mathematics sees it.
pub struct TorrentMetadataV {
    pub announce: Seq<char>,
    pub announce_list: Option<Seq<Seq<Seq<char>>>>,
    pub comment: Option<Seq<char>>,
    pub created_by: Option<Seq<char>>,
    pub creation_date: Option<int>,
    pub encoding: Option<Seq<char>>,
    pub info: InfoV,
    pub info_hash: Seq<u8>,
}

pub struct PeerInfoV {
    pub peer_id: Option<Seq<char>>,
    pub ip: Seq<char>,
    pub port: int,
}

pub enum TrackerResponseV {
    Failure(Seq<char>),
    Warning(Seq<char>),
    Success {
        interval: int,
        min_interval: Option<int>,
        tracker_id: Option<Seq<char>>,
        complete: int,
        incomplete: int,
        peers: Seq<PeerInfoV>,
    },
}

pub open spec fn opt_text_view(o: Option<String>) -> Option<Seq<char>> {
    match o {
        Some(s) => Some(s@),
        None => None,
    }
}

pub open spec fn opt_int_view(o: Option<i64>) -> Option<int> {
    match o {
        Some(i) => Some(i as int),
        None => None,
    }
}

pub open spec fn tiers_view(v: Seq<Vec<String>>) -> Seq<Seq<Seq<char>>> {
    v.map_values(|t: Vec<String>| strings_view(t@))
}

impl InfoFile {
    pub open spec fn view(self) -> InfoFileV {
        InfoFileV {
            length: self.length as int,
            md5sum: opt_text_view(self.md5sum),
            path: strings_view(self.path@),
        }
    }
}

pub open spec fn files_view(v: Seq<InfoFile>) -> Seq<InfoFileV> {
    v.map_values(|f: InfoFile| f@)
}

pub open spec fn pieces_view(v: Seq<Vec<u8>>) -> Seq<Seq<u8>> {
    v.map_values(|p: Vec<u8>| p@)
}

impl Info {
    pub open spec fn view(self) -> InfoV {
        InfoV {
            piece_length: self.piece_length as int,
            pieces: pieces_view(self.pieces@),
            private: self.private,
            name: self.name@,
            files: match self.files {
                Some(f) => Some(files_view(f@)),
                None => None,
            },
            length: opt_int_view(self.length),
            md5sum: opt_text_view(self.md5sum),
        }
    }
}

impl TorrentMetadata {
    pub open spec fn view(self) -> TorrentMetadataV {
        TorrentMetadataV {
            announce: self.announce@,
            announce_list: match self.announce_list {
                Some(l) => Some(tiers_view(l@)),
                None => None,
            },
            comment: opt_text_view(self.comment),
            created_by: opt_text_view(self.created_by),
            creation_date: opt_int_view(self.creation_date),
            encoding: opt_text_view(self.encoding),
            info: self.info@,
            info_hash: self.info_hash@,
        }
    }

    /// A single-file torrent is one whose info holds no file list.
    pub fn is_single_file(&self) -> (r: bool)
        ensures
            r == (self@.info.files is None),
    {
        self.info.files.is_none()
    }
}

impl TrackerResponsePeer {
    pub open spec fn view(self) -> PeerInfoV {
        PeerInfoV { peer_id: opt_text_view(self.peer_id), ip: self.ip@, port: self.port as int }
    }
}

pub open spec fn peers_view(v: Seq<TrackerResponsePeer>) -> Seq<PeerInfoV> {
    v.map_values(|p: TrackerResponsePeer| p@)
}

impl TrackerResponse {
    pub open spec fn view(self) -> TrackerResponseV {
        match self {
            TrackerResponse::Failure(m) => TrackerResponseV::Failure(m@),
            TrackerResponse::Warning(m) => TrackerResponseV::Warning(m@),
            TrackerResponse::Success(s) => TrackerResponseV::Success {
                interval: s.interval as int,
                min_interval: opt_int_view(s.min_interval),
                tracker_id: opt_text_view(s.tracker_id),
                complete: s.complete as int,
                incomplete: s.incomplete as int,
                peers: peers_view(s.peers@),
            },
        }
    }
}

} // verus!
