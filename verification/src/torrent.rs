//! The metainfo of a torrent: what a torrent file holds.

use crate::digest::{sha1_digest, sha1_of};
use crate::error::Error;
use crate::grammar::{encode_value, field};
use crate::hashes::{concat_hashes, HashStrVisitor, Hashes};
use crate::ser::encode;
use crate::text::{as_text, text_from, text_to_bytes};
use crate::value::{entries_view, items_view, BenCode, BenValue};
use vstd::prelude::*;
use vstd::utf8::encode_utf8;

verus! {

/// The key `announce`.
pub open spec fn key_announce() -> Seq<u8> {
    seq![97u8, 110u8, 110u8, 111u8, 117u8, 110u8, 99u8, 101u8]
}

/// The key `info`.
pub open spec fn key_info() -> Seq<u8> {
    seq![105u8, 110u8, 102u8, 111u8]
}

/// The key `name`.
pub open spec fn key_name() -> Seq<u8> {
    seq![110u8, 97u8, 109u8, 101u8]
}

/// The key `piece length`.
pub open spec fn key_piece_length() -> Seq<u8> {
    seq![112u8, 105u8, 101u8, 99u8, 101u8, 32u8, 108u8, 101u8, 110u8, 103u8, 116u8, 104u8]
}

/// The key `pieces`.
pub open spec fn key_pieces() -> Seq<u8> {
    seq![112u8, 105u8, 101u8, 99u8, 101u8, 115u8]
}

/// The key `length`.
pub open spec fn key_length() -> Seq<u8> {
    seq![108u8, 101u8, 110u8, 103u8, 116u8, 104u8]
}

/// The key `files`.
pub open spec fn key_files() -> Seq<u8> {
    seq![102u8, 105u8, 108u8, 101u8, 115u8]
}

/// The key `path`.
pub open spec fn key_path() -> Seq<u8> {
    seq![112u8, 97u8, 116u8, 104u8]
}

/// The key `announce`.
pub fn announce_key() -> (key: Vec<u8>)
    ensures
        key@ == key_announce(),
{
    let key: Vec<u8> = vec![97u8, 110u8, 110u8, 111u8, 117u8, 110u8, 99u8, 101u8];
    key
}

/// The key `info`.
pub fn info_key() -> (key: Vec<u8>)
    ensures
        key@ == key_info(),
{
    let key: Vec<u8> = vec![105u8, 110u8, 102u8, 111u8];
    key
}

/// The key `name`.
pub fn name_key() -> (key: Vec<u8>)
    ensures
        key@ == key_name(),
{
    let key: Vec<u8> = vec![110u8, 97u8, 109u8, 101u8];
    key
}

/// The key `piece length`.
pub fn piece_length_key() -> (key: Vec<u8>)
    ensures
        key@ == key_piece_length(),
{
    let key: Vec<u8> = vec![
        112u8, 105u8, 101u8, 99u8, 101u8, 32u8, 108u8, 101u8, 110u8, 103u8, 116u8, 104u8,
    ];
    key
}

/// The key `pieces`.
pub fn pieces_key() -> (key: Vec<u8>)
    ensures
        key@ == key_pieces(),
{
    let key: Vec<u8> = vec![112u8, 105u8, 101u8, 99u8, 101u8, 115u8];
    key
}

/// The key `length`.
pub fn length_key() -> (key: Vec<u8>)
    ensures
        key@ == key_length(),
{
    let key: Vec<u8> = vec![108u8, 101u8, 110u8, 103u8, 116u8, 104u8];
    key
}

/// The key `files`.
pub fn files_key() -> (key: Vec<u8>)
    ensures
        key@ == key_files(),
{
    let key: Vec<u8> = vec![102u8, 105u8, 108u8, 101u8, 115u8];
    key
}

/// The key `path`.
pub fn path_key() -> (key: Vec<u8>)
    ensures
        key@ == key_path(),
{
    let key: Vec<u8> = vec![112u8, 97u8, 116u8, 104u8];
    key
}

/// Metainfo files (also known as .torrent files) are bencoded dictionaries.
#[derive(Debug, Clone, PartialEq, Eq)]
pub struct Torrent {
    /// The URL of the tracker.
    pub announce: String,
    pub info: Info,
}

#[derive(Debug, Clone, PartialEq, Eq)]
pub struct Info {
    /// The suggested name to save the file (or directory) as. It is purely
    /// advisory.
    pub name: String,
    /// The number of bytes in each piece the file is split into.
    pub plength: usize,
    /// Each entry of `pieces` is the SHA-1 digest of the piece at the
    /// corresponding index.
    pub pieces: Hashes,
    pub keys: Keys,
}

/// There is a key `length` or a key `files`, but not both or neither.
#[derive(Debug, Clone, PartialEq, Eq)]
pub enum Keys {
    /// If `length` is present then the download represents a single file.
    SingleFile {
        /// The length of the file in bytes.
        length: usize,
    },
    /// Otherwise it represents a set of files which go in a directory
    /// structure, taken as one file: the files one after the other, in the
    /// order of the list.
    MultiFile { files: Vec<TorrentFile> },
}

#[derive(Debug, Clone, PartialEq, Eq)]
pub struct TorrentFile {
    /// The length of the file in bytes.
    pub length: usize,
    /// Subdirectory names for this file, the last of which is the actual
    /// file name.
    pub path: Vec<String>,
}

/// The lengths of `files`, added up.
pub open spec fn files_total(files: Seq<TorrentFile>) -> nat
    decreases files.len(),
{
    if files.len() == 0 {
        0
    } else {
        files_total(files.drop_last()) + files.last().length as nat
    }
}

/// The lengths of the first files of a list add up to no more than those
/// of the whole list.
pub proof fn lemma_files_total_grows(files: Seq<TorrentFile>, k: int)
    requires
        0 <= k <= files.len(),
    ensures
        files_total(files.take(k)) <= files_total(files),
    decreases files.len(),
{
    if k < files.len() {
        lemma_files_total_grows(files.drop_last(), k);
        assert(files.drop_last().take(k) =~= files.take(k));
    } else {
        assert(files.take(k) =~= files);
    }
}

/// The segments of a path as bencode values: a byte string each.
pub open spec fn path_value(path: Seq<String>) -> Seq<BenValue> {
    Seq::new(path.len(), |j: int| BenValue::Bytes(encode_utf8(path[j]@)))
}

/// A file of a torrent as a bencode value: a dictionary with its length and
/// its path.
pub open spec fn file_value(file: TorrentFile) -> BenValue {
    BenValue::Dict(
        seq![
            (key_length(), BenValue::Int(file.length as int)),
            (key_path(), BenValue::List(path_value(file.path@))),
        ],
    )
}

/// The files of a torrent as bencode values.
pub open spec fn files_value(files: Seq<TorrentFile>) -> Seq<BenValue> {
    Seq::new(files.len(), |i: int| file_value(files[i]))
}

/// The info dictionary as a bencode value, with its keys in the order of
/// their bytes: `files` or `length`, then `name`, `piece length` and
/// `pieces`.
pub open spec fn info_value(info: Info) -> BenValue {
    let first = match info.keys {
        Keys::SingleFile { length } => (key_length(), BenValue::Int(length as int)),
        Keys::MultiFile { files } => (key_files(), BenValue::List(files_value(files@))),
    };
    BenValue::Dict(
        seq![
            first,
            (key_name(), BenValue::Bytes(encode_utf8(info.name@))),
            (key_piece_length(), BenValue::Int(info.plength as int)),
            (key_pieces(), BenValue::Bytes(concat_hashes(info.pieces.0@))),
        ],
    )
}

/// A torrent as a bencode value: a dictionary with the tracker URL and the
/// info dictionary.
pub open spec fn torrent_value(torrent: Torrent) -> BenValue {
    BenValue::Dict(
        seq![
            (key_announce(), BenValue::Bytes(encode_utf8(torrent.announce@))),
            (key_info(), info_value(torrent.info)),
        ],
    )
}

/// The size that the bencode value `v` gives: an integer that is not
/// negative and fits both in `usize` and in 64 bits with a sign.
pub open spec fn as_size(v: BenValue) -> Option<nat> {
    match v {
        BenValue::Int(i) => if 0 <= i <= usize::MAX && i <= i64::MAX {
            Some(i as nat)
        } else {
            None
        },
        _ => None,
    }
}

/// Whether the bencode value `v` describes a file of a torrent: a dictionary
/// with a size under `length` and a list of texts under `path`.
pub open spec fn valid_file(v: BenValue) -> bool {
    &&& field(v, key_length()) matches Some(l) && as_size(l) is Some
    &&& field(v, key_path()) matches Some(BenValue::List(segments)) && forall|j: int|
        0 <= j < segments.len() ==> as_text(#[trigger] segments[j]) is Some
}

/// Whether `file` is the file that the bencode value `v` describes.
pub open spec fn file_matches(v: BenValue, file: TorrentFile) -> bool {
    &&& field(v, key_length()) matches Some(l) && as_size(l) == Some(file.length as nat)
    &&& field(v, key_path()) matches Some(BenValue::List(segments)) && segments.len()
        == file.path@.len() && forall|j: int|
        0 <= j < segments.len() ==> as_text(#[trigger] segments[j]) == Some(file.path@[j]@)
}

/// The size that the bencode value `v` gives for a file, or zero where it
/// gives none.
pub open spec fn listed_size(v: BenValue) -> nat {
    match field(v, key_length()) {
        Some(l) => match as_size(l) {
            Some(n) => n,
            None => 0,
        },
        None => 0,
    }
}

/// The sizes that the bencode values `list` give for their files, added up.
pub open spec fn listed_total(list: Seq<BenValue>) -> nat
    decreases list.len(),
{
    if list.len() == 0 {
        0
    } else {
        listed_total(list.drop_last()) + listed_size(list.last())
    }
}

/// The sizes of the first files of a list add up to no more than those of
/// the whole list.
pub proof fn lemma_listed_total_grows(list: Seq<BenValue>, k: int)
    requires
        0 <= k <= list.len(),
    ensures
        listed_total(list.take(k)) <= listed_total(list),
    decreases list.len(),
{
    if k < list.len() {
        lemma_listed_total_grows(list.drop_last(), k);
        assert(list.drop_last().take(k) =~= list.take(k));
    } else {
        assert(list.take(k) =~= list);
    }
}

/// Whether the bencode value `v` describes the files of a torrent: a list of
/// files whose sizes add up to what fits in `usize`.
pub open spec fn valid_files(v: BenValue) -> bool {
    v matches BenValue::List(list) && listed_total(list) <= usize::MAX && forall|i: int|
        0 <= i < list.len() ==> valid_file(#[trigger] list[i])
}

/// Whether `files` are the files that the bencode value `v` describes.
pub open spec fn files_match(v: BenValue, files: Seq<TorrentFile>) -> bool {
    v matches BenValue::List(list) && list.len() == files.len() && forall|i: int|
        0 <= i < list.len() ==> file_matches(#[trigger] list[i], files[i])
}

/// Whether the bencode value `v` is an info dictionary: it has a text under
/// `name`, a size above zero under `piece length`, a byte string whose length
/// is a multiple of twenty under `pieces`, and either a size under `length`
/// or files under `files`, not both and not neither.
pub open spec fn valid_info(v: BenValue) -> bool {
    &&& field(v, key_name()) matches Some(n) && as_text(n) is Some
    &&& field(v, key_piece_length()) matches Some(p) && as_size(p) matches Some(size) && size > 0
    &&& field(v, key_pieces()) matches Some(BenValue::Bytes(b)) && b.len() % 20 == 0
    &&& match (field(v, key_length()), field(v, key_files())) {
        (Some(l), None) => as_size(l) is Some,
        (None, Some(f)) => valid_files(f),
        _ => false,
    }
}

/// Whether `info` is what the info dictionary `v` describes.
pub open spec fn info_matches(v: BenValue, info: Info) -> bool {
    &&& field(v, key_name()) matches Some(n) && as_text(n) == Some(info.name@)
    &&& field(v, key_piece_length()) matches Some(p) && as_size(p) == Some(info.plength as nat)
    &&& field(v, key_pieces()) == Some(BenValue::Bytes(concat_hashes(info.pieces.0@)))
    &&& match info.keys {
        Keys::SingleFile { length } => field(v, key_files()) is None && (field(v, key_length())
            matches Some(l) && as_size(l) == Some(length as nat)),
        Keys::MultiFile { files } => field(v, key_length()) is None && (field(v, key_files())
            matches Some(f) && files_match(f, files@)),
    }
}

/// Whether the bencode value `v` is the content of a torrent file: a
/// dictionary with a text under `announce` and an info dictionary under
/// `info`.
pub open spec fn valid_torrent(v: BenValue) -> bool {
    &&& field(v, key_announce()) matches Some(a) && as_text(a) is Some
    &&& field(v, key_info()) matches Some(i) && valid_info(i)
}

/// Whether `torrent` is what the bencode value `v` describes.
pub open spec fn torrent_matches(v: BenValue, torrent: Torrent) -> bool {
    &&& field(v, key_announce()) matches Some(a) && as_text(a) == Some(torrent.announce@)
    &&& field(v, key_info()) matches Some(i) && info_matches(i, torrent.info)
}

/// A field that a torrent file must have.
#[derive(Debug, Clone, Copy, PartialEq, Eq, Structural)]
pub enum Field {
    Announce,
    Info,
    Name,
    PieceLength,
    Pieces,
    Length,
    Files,
}

/// The first field at fault in the info dictionary `v`, if there is one: the
/// name, the piece length and the pieces are looked at in this order, and
/// then the length and the files, of which one must be there and the other
/// must not.
pub open spec fn info_fault(v: BenValue) -> Option<Field> {
    if !(field(v, key_name()) matches Some(n) && as_text(n) is Some) {
        Some(Field::Name)
    } else if !(field(v, key_piece_length()) matches Some(p) && as_size(p) matches Some(size)
        && size > 0) {
        Some(Field::PieceLength)
    } else if !(field(v, key_pieces()) matches Some(BenValue::Bytes(b)) && b.len() % 20 == 0) {
        Some(Field::Pieces)
    } else {
        match (field(v, key_length()), field(v, key_files())) {
            (Some(l), None) => if as_size(l) is Some {
                None
            } else {
                Some(Field::Length)
            },
            (None, Some(f)) => if valid_files(f) {
                None
            } else {
                Some(Field::Files)
            },
            (Some(_), Some(_)) => Some(Field::Files),
            (None, None) => Some(Field::Length),
        }
    }
}

/// The first field at fault in the content `v` of a torrent file, if there
/// is one: the tracker URL is looked at first, then the info dictionary and
/// what it holds.
pub open spec fn torrent_fault(v: BenValue) -> Option<Field> {
    if !(field(v, key_announce()) matches Some(a) && as_text(a) is Some) {
        Some(Field::Announce)
    } else {
        match field(v, key_info()) {
            None => Some(Field::Info),
            Some(i) => info_fault(i),
        }
    }
}

/// A value is an info dictionary, or the content of a torrent file, where
/// none of its fields is at fault.
pub proof fn lemma_valid_has_no_fault(v: BenValue)
    ensures
        valid_info(v) <==> info_fault(v) is None,
        valid_torrent(v) <==> torrent_fault(v) is None,
{
}

impl Field {
    /// The key of the field.
    pub open spec fn key(self) -> Seq<u8> {
        match self {
            Field::Announce => key_announce(),
            Field::Info => key_info(),
            Field::Name => key_name(),
            Field::PieceLength => key_piece_length(),
            Field::Pieces => key_pieces(),
            Field::Length => key_length(),
            Field::Files => key_files(),
        }
    }

    /// The key of the field.
    pub fn name(self) -> (key: Vec<u8>)
        ensures
            key@ == self.key(),
    {
        match self {
            Field::Announce => announce_key(),
            Field::Info => info_key(),
            Field::Name => name_key(),
            Field::PieceLength => piece_length_key(),
            Field::Pieces => pieces_key(),
            Field::Length => length_key(),
            Field::Files => files_key(),
        }
    }
}

/// The size that `value` gives, if it gives one.
pub fn size_from(value: &BenCode) -> (r: Option<usize>)
    ensures
        match as_size(value@) {
            Some(n) => r == Some(n as usize),
            None => r is None,
        },
{
    match value {
        BenCode::Int(i) => {
            if *i < 0 || *i as u64 > usize::MAX as u64 {
                None
            } else {
                Some(*i as usize)
            }
        },
        _ => None,
    }
}

/// The digest that names the torrent whose file holds `value`: the SHA-1
/// digest of the encoding of the dictionary under `info`, with every key that
/// it holds, in the order in which it holds them. There is none where
/// `value` has nothing under `info`.
pub fn info_hash_of(value: &BenCode) -> (digest: Option<[u8; 20]>)
    ensures
        match field(value@, key_info()) {
            Some(info) => digest matches Some(d) && d@ == sha1_digest(encode_value(info)),
            None => digest is None,
        },
{
    match value.get(info_key().as_slice()) {
        Some(info) => {
            let encoded = encode(info);
            Some(sha1_of(encoded.as_slice()))
        },
        None => None,
    }
}

impl TorrentFile {
    /// Whether the length can be written as a bencode integer.
    pub open spec fn wf(&self) -> bool {
        self.length <= i64::MAX
    }

    /// Whether the length can be written as a bencode integer.
    pub fn is_valid(&self) -> (valid: bool)
        ensures
            valid == self.wf(),
    {
        self.length as u64 <= 9223372036854775807u64
    }

    /// This file as a bencode value.
    pub fn to_bencode(&self) -> (value: BenCode)
        requires
            self.wf(),
        ensures
            value@ == file_value(*self),
    {
        let mut segments: Vec<BenCode> = Vec::new();
        let mut j: usize = 0;
        while j < self.path.len()
            invariant
                j <= self.path.len(),
                segments@.len() == j,
                forall|k: int|
                    0 <= k < j ==> segments@[k]@ == BenValue::Bytes(encode_utf8(self.path@[k]@)),
            decreases self.path.len() - j,
        {
            segments.push(BenCode::String(text_to_bytes(&self.path[j])));
            j += 1;
        }
        assert(items_view(segments@) =~= path_value(self.path@));
        let mut entries: Vec<(Vec<u8>, BenCode)> = Vec::new();
        entries.push((length_key(), BenCode::Int(self.length as i64)));
        entries.push((path_key(), BenCode::Array(segments)));
        assert(entries_view(entries@) =~= file_value(*self)->Dict_0);
        BenCode::Dict(entries)
    }

    /// The file that `value` describes, if it describes one.
    pub fn from_bencode(value: &BenCode) -> (r: Option<TorrentFile>)
        ensures
            valid_file(value@) ==> (r matches Some(file) && file_matches(value@, file)
                && file.wf()),
            !valid_file(value@) ==> r is None,
    {
        let length = match value.get(length_key().as_slice()) {
            Some(l) => match size_from(l) {
                Some(n) => n,
                None => {
                    return None;
                },
            },
            None => {
                return None;
            },
        };
        let segments = match value.get(path_key().as_slice()) {
            Some(BenCode::Array(segments)) => segments,
            _ => {
                return None;
            },
        };
        let mut path: Vec<String> = Vec::new();
        let mut j: usize = 0;
        while j < segments.len()
            invariant
                j <= segments.len(),
                path@.len() == j,
                field(value@, key_path()) == Some(BenValue::List(items_view(segments@))),
                field(value@, key_length()) matches Some(l) && as_size(l) == Some(length as nat),
                forall|k: int|
                    0 <= k < j ==> as_text(#[trigger] items_view(segments@)[k]) == Some(
                        path@[k]@,
                    ),
            decreases segments.len() - j,
        {
            match text_from(&segments[j]) {
                Some(segment) => {
                    path.push(segment);
                },
                None => {
                    assert(as_text(items_view(segments@)[j as int]) is None);
                    return None;
                },
            }
            j += 1;
        }
        Some(TorrentFile { length, path })
    }
}

impl Keys {
    /// Whether every length can be written as a bencode integer, and the
    /// lengths of the files add up to what fits in `usize`.
    pub open spec fn wf(&self) -> bool {
        match self {
            Keys::SingleFile { length } => *length <= i64::MAX,
            Keys::MultiFile { files } => files_total(files@) <= usize::MAX && forall|i: int|
                0 <= i < files@.len() ==> (#[trigger] files@[i]).wf(),
        }
    }

    /// The length of the content: that of the single file, or those of the
    /// files added up.
    pub open spec fn length_spec(&self) -> nat {
        match self {
            Keys::SingleFile { length } => *length as nat,
            Keys::MultiFile { files } => files_total(files@),
        }
    }

    /// Whether every length can be written as a bencode integer, and the
    /// lengths of the files add up to what fits in `usize`.
    pub fn is_valid(&self) -> (valid: bool)
        ensures
            valid == self.wf(),
    {
        match self {
            Keys::SingleFile { length } => *length as u64 <= 9223372036854775807u64,
            Keys::MultiFile { files } => {
                let mut total: usize = 0;
                let mut i: usize = 0;
                while i < files.len()
                    invariant
                        i <= files.len(),
                        *self == (Keys::MultiFile { files: *files }),
                        total == files_total(files@.take(i as int)),
                        forall|k: int| 0 <= k < i ==> (#[trigger] files@[k]).wf(),
                    decreases files.len() - i,
                {
                    proof {
                        lemma_files_total_grows(files@, i + 1);
                        assert(files@.take(i + 1).drop_last() =~= files@.take(i as int));
                    }
                    if !files[i].is_valid() {
                        return false;
                    }
                    if files[i].length > usize::MAX - total {
                        return false;
                    }
                    total = total + files[i].length;
                    i += 1;
                }
                assert(files@.take(i as int) =~= files@);
                true
            },
        }
    }

    /// The length of the content: that of the single file, or those of the
    /// files added up.
    pub fn length(&self) -> (total: usize)
        requires
            self.wf(),
        ensures
            total == self.length_spec(),
    {
        match self {
            Keys::SingleFile { length } => *length,
            Keys::MultiFile { files } => {
                let mut total: usize = 0;
                let mut i: usize = 0;
                while i < files.len()
                    invariant
                        i <= files.len(),
                        files_total(files@) <= usize::MAX,
                        total == files_total(files@.take(i as int)),
                    decreases files.len() - i,
                {
                    proof {
                        lemma_files_total_grows(files@, i + 1);
                        assert(files@.take(i + 1).drop_last() =~= files@.take(i as int));
                    }
                    total = total + files[i].length;
                    i += 1;
                }
                assert(files@.take(i as int) =~= files@);
                total
            },
        }
    }
}

/// The files that the list `list` describes, if every value in it describes
/// a file and their sizes add up to what fits in `usize`.
pub fn files_from(list: &Vec<BenCode>) -> (r: Option<Vec<TorrentFile>>)
    ensures
        valid_files(BenValue::List(items_view(list@))) ==> (r matches Some(files) && files_match(
            BenValue::List(items_view(list@)),
            files@,
        ) && (Keys::MultiFile { files }).wf()),
        !valid_files(BenValue::List(items_view(list@))) ==> r is None,
{
    let ghost models = items_view(list@);
    let mut files: Vec<TorrentFile> = Vec::new();
    let mut total: usize = 0;
    let mut i: usize = 0;
    while i < list.len()
        invariant
            i <= list.len(),
            models == items_view(list@),
            files@.len() == i,
            total == listed_total(models.take(i as int)),
            total == files_total(files@),
            forall|k: int| 0 <= k < i ==> valid_file(#[trigger] models[k]),
            forall|k: int| 0 <= k < i ==> file_matches(#[trigger] models[k], files@[k]),
            forall|k: int| 0 <= k < i ==> (#[trigger] files@[k]).wf(),
        decreases list.len() - i,
    {
        proof {
            lemma_listed_total_grows(models, i + 1);
            assert(models.take(i + 1).drop_last() =~= models.take(i as int));
        }
        match TorrentFile::from_bencode(&list[i]) {
            None => {
                return None;
            },
            Some(file) => {
                if file.length > usize::MAX - total {
                    return None;
                }
                total = total + file.length;
                assert(files@.push(file).drop_last() =~= files@);
                files.push(file);
            },
        }
        i += 1;
    }
    assert(models.take(i as int) =~= models);
    Some(files)
}

impl Info {
    /// Whether the piece length is above zero, it and every other length can
    /// be written as a bencode integer, and the lengths of the files add up
    /// to what fits in `usize`.
    pub open spec fn wf(&self) -> bool {
        &&& 0 < self.plength <= i64::MAX
        &&& self.keys.wf()
    }

    /// Whether the piece length is above zero, it and every other length can
    /// be written as a bencode integer, and the lengths of the files add up
    /// to what fits in `usize`.
    pub fn is_valid(&self) -> (valid: bool)
        ensures
            valid == self.wf(),
    {
        self.plength > 0 && self.plength as u64 <= 9223372036854775807u64 && self.keys.is_valid()
    }

    /// The length of the content: that of the single file, or those of the
    /// files added up.
    pub fn total_length(&self) -> (total: usize)
        requires
            self.wf(),
        ensures
            total == self.keys.length_spec(),
    {
        self.keys.length()
    }

    /// The info dictionary as a bencode value.
    pub fn to_bencode(&self) -> (value: BenCode)
        requires
            self.wf(),
        ensures
            value@ == info_value(*self),
    {
        let mut entries: Vec<(Vec<u8>, BenCode)> = Vec::new();
        match &self.keys {
            Keys::SingleFile { length } => {
                entries.push((length_key(), BenCode::Int(*length as i64)));
            },
            Keys::MultiFile { files } => {
                let mut list: Vec<BenCode> = Vec::new();
                let mut i: usize = 0;
                while i < files.len()
                    invariant
                        i <= files.len(),
                        list@.len() == i,
                        forall|k: int| 0 <= k < files@.len() ==> (#[trigger] files@[k]).wf(),
                        forall|k: int| 0 <= k < i ==> list@[k]@ == file_value(files@[k]),
                    decreases files.len() - i,
                {
                    list.push(files[i].to_bencode());
                    i += 1;
                }
                assert(items_view(list@) =~= files_value(files@));
                entries.push((files_key(), BenCode::Array(list)));
            },
        }
        entries.push((name_key(), BenCode::String(text_to_bytes(&self.name))));
        entries.push((piece_length_key(), BenCode::Int(self.plength as i64)));
        entries.push((pieces_key(), BenCode::String(self.pieces.to_bytes())));
        assert(entries_view(entries@) =~= info_value(*self)->Dict_0);
        BenCode::Dict(entries)
    }

    /// The info dictionary that `value` describes, or the first of its
    /// fields that is at fault.
    pub fn parse(value: &BenCode) -> (r: Result<Info, Field>)
        ensures
            match info_fault(value@) {
                None => r matches Ok(info) && info_matches(value@, info) && info.wf(),
                Some(fault) => r matches Err(f) && f == fault,
            },
    {
        let name = match value.get(name_key().as_slice()) {
            Some(n) => match text_from(n) {
                Some(name) => name,
                None => {
                    return Err(Field::Name);
                },
            },
            None => {
                return Err(Field::Name);
            },
        };
        let plength = match value.get(piece_length_key().as_slice()) {
            Some(p) => match size_from(p) {
                Some(size) => size,
                None => {
                    return Err(Field::PieceLength);
                },
            },
            None => {
                return Err(Field::PieceLength);
            },
        };
        if plength == 0 {
            return Err(Field::PieceLength);
        }
        let pieces = match value.get(pieces_key().as_slice()) {
            Some(BenCode::String(bytes)) => match (HashStrVisitor {  }).visit_bytes(
                bytes.as_slice(),
            ) {
                Ok(pieces) => pieces,
                Err(_) => {
                    return Err(Field::Pieces);
                },
            },
            _ => {
                return Err(Field::Pieces);
            },
        };
        let keys = match (value.get(length_key().as_slice()), value.get(files_key().as_slice())) {
            (Some(l), None) => match size_from(l) {
                Some(length) => Keys::SingleFile { length },
                None => {
                    return Err(Field::Length);
                },
            },
            (None, Some(BenCode::Array(list))) => match files_from(list) {
                Some(files) => Keys::MultiFile { files },
                None => {
                    return Err(Field::Files);
                },
            },
            (None, None) => {
                return Err(Field::Length);
            },
            _ => {
                return Err(Field::Files);
            },
        };
        Ok(Info { name, plength, pieces, keys })
    }

    /// The info dictionary that `value` describes. A value that is no info
    /// dictionary is malformed.
    pub fn from_bencode(value: &BenCode) -> (r: Result<Info, Error>)
        ensures
            valid_info(value@) ==> (r matches Ok(info) && info_matches(value@, info)
                && info.wf()),
            !valid_info(value@) ==> (r matches Err(e) && e == Error::MalformedBencode),
    {
        match Info::parse(value) {
            Ok(info) => Ok(info),
            Err(_) => Err(Error::MalformedBencode),
        }
    }
}

impl Torrent {
    /// This torrent as a bencode value.
    pub fn to_bencode(&self) -> (value: BenCode)
        requires
            self.info.wf(),
        ensures
            value@ == torrent_value(*self),
    {
        let mut entries: Vec<(Vec<u8>, BenCode)> = Vec::new();
        entries.push((announce_key(), BenCode::String(text_to_bytes(&self.announce))));
        entries.push((info_key(), self.info.to_bencode()));
        assert(entries_view(entries@) =~= torrent_value(*self)->Dict_0);
        BenCode::Dict(entries)
    }

    /// The torrent that `value` describes, or the first of its fields that
    /// is at fault.
    pub fn parse(value: &BenCode) -> (r: Result<Torrent, Field>)
        ensures
            match torrent_fault(value@) {
                None => r matches Ok(torrent) && torrent_matches(value@, torrent)
                    && torrent.info.wf(),
                Some(fault) => r matches Err(f) && f == fault,
            },
    {
        let announce = match value.get(announce_key().as_slice()) {
            Some(a) => match text_from(a) {
                Some(announce) => announce,
                None => {
                    return Err(Field::Announce);
                },
            },
            None => {
                return Err(Field::Announce);
            },
        };
        let info = match value.get(info_key().as_slice()) {
            Some(i) => match Info::parse(i) {
                Ok(info) => info,
                Err(fault) => {
                    return Err(fault);
                },
            },
            None => {
                return Err(Field::Info);
            },
        };
        Ok(Torrent { announce, info })
    }

    /// The torrent that `value` describes. A value that does not describe
    /// one is malformed.
    pub fn from_bencode(value: &BenCode) -> (r: Result<Torrent, Error>)
        ensures
            valid_torrent(value@) ==> (r matches Ok(torrent) && torrent_matches(value@, torrent)
                && torrent.info.wf()),
            !valid_torrent(value@) ==> (r matches Err(e) && e == Error::MalformedBencode),
    {
        match Torrent::parse(value) {
            Ok(torrent) => Ok(torrent),
            Err(_) => Err(Error::MalformedBencode),
        }
    }

    /// The digest that names the torrent: the SHA-1 digest of the encoding
    /// of the info dictionary.
    pub fn info_hash(&self) -> (digest: [u8; 20])
        requires
            self.info.wf(),
        ensures
            digest@ == sha1_digest(encode_value(info_value(self.info))),
    {
        let encoded = encode(&self.info.to_bencode());
        sha1_of(encoded.as_slice())
    }
}

} // verus!
