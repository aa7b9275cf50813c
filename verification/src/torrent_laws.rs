//! What holds of a torrent and the bencode value that it is written as.

use crate::grammar::{
    distinct_keys, encode_value, field, lemma_key_position, parse_whole, well_formed,
};
use crate::hashes::{concat_hashes, lemma_concat_hashes};
use crate::roundtrip::lemma_decode_whole_encode;
use crate::text::as_text;
use crate::torrent::{
    file_matches, file_value, files_total, files_value, info_matches, info_value, key_announce,
    key_files, key_info, key_length, key_name, key_path, key_piece_length, key_pieces,
    listed_size, listed_total, path_value, torrent_matches, torrent_value, valid_file,
    valid_info, valid_torrent, Info, Keys, Torrent, TorrentFile,
};
use crate::value::BenValue;
use vstd::prelude::*;
use vstd::utf8::{encode_utf8, encode_utf8_decode_utf8, encode_utf8_valid_utf8};

verus! {

/// The keys of the dictionaries of a torrent file differ from one another.
pub proof fn lemma_keys_differ()
    ensures
        key_announce() != key_info(),
        key_length() != key_path(),
        key_length() != key_name(),
        key_length() != key_piece_length(),
        key_length() != key_pieces(),
        key_length() != key_files(),
        key_files() != key_name(),
        key_files() != key_piece_length(),
        key_files() != key_pieces(),
        key_name() != key_piece_length(),
        key_name() != key_pieces(),
        key_piece_length() != key_pieces(),
{
}

/// A text is read back from the byte string that it is written as.
pub proof fn lemma_text_is_read_back(chars: Seq<char>)
    ensures
        as_text(BenValue::Bytes(encode_utf8(chars))) == Some(chars),
{
    encode_utf8_valid_utf8(chars);
    encode_utf8_decode_utf8(chars);
}

/// The value under the key of entry `p` of a dictionary is the value of that
/// entry, where no entry before it has the same key.
pub proof fn lemma_field_at(entries: Seq<(Seq<u8>, BenValue)>, p: int)
    requires
        0 <= p < entries.len(),
        forall|j: int| 0 <= j < p ==> (#[trigger] entries[j]).0 != entries[p].0,
    ensures
        field(BenValue::Dict(entries), entries[p].0) == Some(entries[p].1),
{
    lemma_key_position(entries, entries[p].0, p);
}

/// A dictionary has no value under a key that none of its entries has.
pub proof fn lemma_field_absent(entries: Seq<(Seq<u8>, BenValue)>, key: Seq<u8>)
    requires
        forall|j: int| 0 <= j < entries.len() ==> (#[trigger] entries[j]).0 != key,
    ensures
        field(BenValue::Dict(entries), key) is None,
{
    lemma_key_position(entries, key, entries.len() as int);
}

/// A file is read back from the value that it is written as, and that value
/// is well formed.
pub proof fn lemma_file_is_read_back(file: TorrentFile)
    requires
        file.wf(),
    ensures
        valid_file(file_value(file)),
        file_matches(file_value(file), file),
        well_formed(file_value(file)),
        listed_size(file_value(file)) == file.length,
{
    lemma_keys_differ();
    let v = file_value(file);
    let entries = v->Dict_0;
    let segments = path_value(file.path@);
    lemma_field_at(entries, 0);
    lemma_field_at(entries, 1);
    assert forall|j: int| 0 <= j < segments.len() implies as_text(#[trigger] segments[j]) == Some(
        file.path@[j]@,
    ) by {
        lemma_text_is_read_back(file.path@[j]@);
    }
    assert(well_formed(entries[0].1));
    assert(well_formed(entries[1].1)) by {
        assert forall|j: int| 0 <= j < segments.len() implies well_formed(
            #[trigger] segments[j],
        ) by {}
    }
}

/// The sizes that the values of `files` give add up to the lengths of the
/// files.
pub proof fn lemma_listed_total_of_files(files: Seq<TorrentFile>)
    requires
        forall|i: int| 0 <= i < files.len() ==> (#[trigger] files[i]).wf(),
    ensures
        listed_total(files_value(files)) == files_total(files),
    decreases files.len(),
{
    if files.len() > 0 {
        let init = files.drop_last();
        assert forall|i: int| 0 <= i < init.len() implies (#[trigger] init[i]).wf() by {}
        lemma_listed_total_of_files(init);
        assert(files_value(files).drop_last() =~= files_value(init));
        lemma_file_is_read_back(files.last());
    }
}

/// An info dictionary is read back from the value that it is written as,
/// and that value is well formed.
pub proof fn lemma_info_is_read_back(info: Info)
    requires
        info.wf(),
    ensures
        valid_info(info_value(info)),
        info_matches(info_value(info), info),
        well_formed(info_value(info)),
{
    lemma_keys_differ();
    let v = info_value(info);
    let entries = v->Dict_0;
    lemma_text_is_read_back(info.name@);
    lemma_concat_hashes(info.pieces.0@);
    match info.keys {
        Keys::SingleFile { length } => {
            lemma_field_absent(entries, key_files());
        },
        Keys::MultiFile { files } => {
            let list = files_value(files@);
            lemma_field_absent(entries, key_length());
            lemma_listed_total_of_files(files@);
            assert forall|i: int| 0 <= i < list.len() implies valid_file(#[trigger] list[i])
                && file_matches(list[i], files@[i]) && well_formed(list[i]) by {
                lemma_file_is_read_back(files@[i]);
            }
        },
    }
    lemma_field_at(entries, 0);
    lemma_field_at(entries, 1);
    lemma_field_at(entries, 2);
    lemma_field_at(entries, 3);
    assert(well_formed(entries[0].1));
    assert(well_formed(entries[1].1));
    assert(well_formed(entries[2].1));
    assert(well_formed(entries[3].1));
}

/// A torrent is read back from the value that it is written as; that value
/// is well formed, so that it is read back from its encoding in turn: what
/// was written as a torrent file is read as the same torrent.
pub proof fn lemma_torrent_is_read_back(torrent: Torrent)
    requires
        torrent.info.wf(),
    ensures
        valid_torrent(torrent_value(torrent)),
        torrent_matches(torrent_value(torrent), torrent),
        well_formed(torrent_value(torrent)),
        field(torrent_value(torrent), key_info()) == Some(info_value(torrent.info)),
        parse_whole(encode_value(torrent_value(torrent))) == Ok::<BenValue, crate::error::Error>(
            torrent_value(torrent),
        ),
{
    lemma_keys_differ();
    lemma_info_is_read_back(torrent.info);
    lemma_text_is_read_back(torrent.announce@);
    let v = torrent_value(torrent);
    let entries = v->Dict_0;
    lemma_field_at(entries, 0);
    lemma_field_at(entries, 1);
    assert(well_formed(entries[0].1));
    lemma_decode_whole_encode(v);
}

} // verus!
