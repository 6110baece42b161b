//! The file-manifest entry of the list-of-files header.

use vstd::prelude::*;

use crate::error::DecodeError;
use crate::parse::local_parser;
use crate::reader::Reader;
use crate::render::{append_dec, append_hex, spec_dec, spec_hex};
use crate::utils::{
    ascii_chars_of, is_ascii_bytes, packed_string_bytes, packed_text, vec16_to_string, word_at,
    word_count, words_at,
};

verus! {

/// One file entry: a pointer to the file, its name and pathname as packed
/// strings, its member sequence number and its CRC.
#[derive(Debug, Clone, PartialEq, Eq)]
pub struct File {
    pub file_pointer: u16,
    pub file_name_length: u16,
    pub file_name: Vec<u16>,
    pub file_pathname_length: u16,
    pub file_pathname: Vec<u16>,
    pub member_sequence_number: u16,
    pub file_crc: u16,
}

/// The mathematical value of a [`File`].
#[verifier::ext_equal]
pub struct FileModel {
    pub file_pointer: u16,
    pub file_name_length: u16,
    pub file_name: Seq<u16>,
    pub file_pathname_length: u16,
    pub file_pathname: Seq<u16>,
    pub member_sequence_number: u16,
    pub file_crc: u16,
}

impl View for File {
    type V = FileModel;

    open spec fn view(&self) -> FileModel {
        FileModel {
            file_pointer: self.file_pointer,
            file_name_length: self.file_name_length,
            file_name: self.file_name@,
            file_pathname_length: self.file_pathname_length,
            file_pathname: self.file_pathname@,
            member_sequence_number: self.member_sequence_number,
            file_crc: self.file_crc,
        }
    }
}

impl FileModel {
    /// Each packed string holds exactly the word count its character count
    /// calls for.
    pub open spec fn wf(self) -> bool {
        &&& self.file_name.len() == word_count(self.file_name_length as int)
        &&& self.file_pathname.len() == word_count(self.file_pathname_length as int)
    }
}

/// Parses one file entry at byte offset `pos`: the sequential, count-driven
/// field layout of the entry record.
pub open spec fn parse_file(bs: Seq<u8>, pos: int) -> Result<(FileModel, int), DecodeError> {
    let name_len = word_at(bs, pos + 2);
    let nw = word_count(name_len as int);
    let p1 = pos + 4 + 2 * nw;
    let path_len = word_at(bs, p1);
    let pw = word_count(path_len as int);
    let p2 = p1 + 2 + 2 * pw;
    if pos + 4 > bs.len() {
        Err(DecodeError::Truncated)
    } else if p1 + 2 > bs.len() {
        Err(DecodeError::Truncated)
    } else if p2 + 4 > bs.len() {
        Err(DecodeError::Truncated)
    } else {
        Ok(
            (
                FileModel {
                    file_pointer: word_at(bs, pos),
                    file_name_length: name_len,
                    file_name: words_at(bs, pos + 4, nw),
                    file_pathname_length: path_len,
                    file_pathname: words_at(bs, p1 + 2, pw),
                    member_sequence_number: word_at(bs, p2),
                    file_crc: word_at(bs, p2 + 2),
                },
                p2 + 4,
            ),
        )
    }
}

/// A parsed file entry is well formed and ends within the buffer, no earlier
/// than it began.
pub proof fn lemma_parse_file_wf(bs: Seq<u8>, pos: int)
    requires
        0 <= pos,
        parse_file(bs, pos) is Ok,
    ensures
        parse_file(bs, pos)->Ok_0.0.wf(),
        pos < parse_file(bs, pos)->Ok_0.1 <= bs.len(),
{
}

impl File {
    /// Decodes one file entry at the reader's position.
    pub fn decode(r: &mut Reader<'_>) -> (res: Result<File, DecodeError>)
        requires
            old(r).wf(),
        ensures
            final(r).wf(),
            final(r).data@ == old(r).data@,
            match res {
                Ok(f) => parse_file(old(r).data@, old(r).pos as int) == Ok::<_, DecodeError>(
                    (f@, final(r).pos as int),
                ),
                Err(e) => parse_file(old(r).data@, old(r).pos as int) == Err::<
                    (FileModel, int),
                    _,
                >(e),
            },
    {
        let file_pointer = match r.read_u16() {
            Ok(v) => v,
            Err(e) => return Err(e),
        };
        let file_name_length = match r.read_u16() {
            Ok(v) => v,
            Err(e) => return Err(e),
        };
        let nw = file_name_length / 2 + file_name_length % 2;
        let file_name = match r.read_words(nw as usize) {
            Ok(v) => v,
            Err(e) => return Err(e),
        };
        let file_pathname_length = match r.read_u16() {
            Ok(v) => v,
            Err(e) => return Err(e),
        };
        let pw = file_pathname_length / 2 + file_pathname_length % 2;
        let file_pathname = match r.read_words(pw as usize) {
            Ok(v) => v,
            Err(e) => return Err(e),
        };
        let member_sequence_number = match r.read_u16() {
            Ok(v) => v,
            Err(e) => return Err(e),
        };
        let file_crc = match r.read_u16() {
            Ok(v) => v,
            Err(e) => return Err(e),
        };
        Ok(
            File {
                file_pointer,
                file_name_length,
                file_name,
                file_pathname_length,
                file_pathname,
                member_sequence_number,
                file_crc,
            },
        )
    }

    /// The entry's file name, decoded from its packed form; an odd name
    /// length drops the final padding byte.
    pub fn get_file_name(&self) -> (r: String)
        requires
            self@.wf(),
        ensures
            r@ == packed_text(self@.file_name, self@.file_name_length as int),
            is_ascii_bytes(packed_string_bytes(self@.file_name, self@.file_name_length as int))
                ==> r@ == ascii_chars_of(
                packed_string_bytes(self@.file_name, self@.file_name_length as int),
            ),
    {
        vec16_to_string(self.file_name.as_slice(), self.file_name_length as usize)
    }

    /// The entry's file pathname, decoded from its packed form.
    pub fn get_file_pathname(&self) -> (r: String)
        requires
            self@.wf(),
        ensures
            r@ == packed_text(self@.file_pathname, self@.file_pathname_length as int),
            is_ascii_bytes(
                packed_string_bytes(self@.file_pathname, self@.file_pathname_length as int),
            ) ==> r@ == ascii_chars_of(
                packed_string_bytes(self@.file_pathname, self@.file_pathname_length as int),
            ),
    {
        vec16_to_string(self.file_pathname.as_slice(), self.file_pathname_length as usize)
    }
}

/// The report block for one file entry: one labelled line per field, the
/// CRC in lowercase hexadecimal.
pub open spec fn spec_report_file(m: FileModel) -> Seq<char> {
    "\t"@ + spec_dec(m.file_pointer as int) + " Offsets\n\t"@ + spec_dec(
        m.file_name_length as int,
    ) + " Chars in Filename\n\t"@ + packed_text(m.file_name, m.file_name_length as int)
        + " Filename\n\t"@ + spec_dec(m.file_pathname_length as int)
        + " Chars in File Pathname\n\t"@ + packed_text(
        m.file_pathname,
        m.file_pathname_length as int,
    ) + " File Pathname\n\t"@ + spec_dec(m.member_sequence_number as int)
        + " Sequence number\n\t0x"@ + spec_hex(m.file_crc as int) + " CRC\n\n"@
}

/// The record parser for file entries, as a value.
pub open spec fn file_parser() -> spec_fn(Seq<u8>, int) -> Result<(FileModel, int), DecodeError> {
    |bs: Seq<u8>, pos: int| parse_file(bs, pos)
}

/// The file-entry record parser reads only bytes before its end offset:
/// truncating the buffer at or past the end changes nothing, and truncating
/// it earlier turns the parse into a failure.
pub proof fn lemma_parse_file_local()
    ensures
        local_parser(file_parser()),
{
    let f = file_parser();
    assert forall|bs: Seq<u8>, pos: int, k: int|
        0 <= pos && 0 <= k <= bs.len() && f(bs, pos) is Ok implies {
        let end = f(bs, pos)->Ok_0.1;
        &&& pos <= end <= bs.len()
        &&& (end <= k ==> #[trigger] f(bs.take(k), pos) == f(bs, pos))
        &&& (pos <= k < end ==> f(bs.take(k), pos) is Err)
    } by {
        assert(f(bs, pos) == parse_file(bs, pos));
        assert(f(bs.take(k), pos) == parse_file(bs.take(k), pos));
        let end = parse_file(bs, pos)->Ok_0.1;
        let name_len = word_at(bs, pos + 2);
        let nw = word_count(name_len as int);
        let p1 = pos + 4 + 2 * nw;
        let path_len = word_at(bs, p1);
        let pw = word_count(path_len as int);
        let p2 = p1 + 2 + 2 * pw;
        if end <= k {
            assert(word_at(bs.take(k), pos) == word_at(bs, pos));
            assert(word_at(bs.take(k), pos + 2) == word_at(bs, pos + 2));
            assert(word_at(bs.take(k), p1) == word_at(bs, p1));
            assert(word_at(bs.take(k), p2) == word_at(bs, p2));
            assert(word_at(bs.take(k), p2 + 2) == word_at(bs, p2 + 2));
            assert(words_at(bs.take(k), pos + 4, nw) =~= words_at(bs, pos + 4, nw));
            assert(words_at(bs.take(k), p1 + 2, pw) =~= words_at(bs, p1 + 2, pw));
            assert(parse_file(bs.take(k), pos) is Ok);
            assert(parse_file(bs.take(k), pos)->Ok_0.0 =~= parse_file(bs, pos)->Ok_0.0);
            assert(parse_file(bs.take(k), pos) == parse_file(bs, pos));
        } else if pos <= k < end {
            if pos + 4 <= k {
                assert(word_at(bs.take(k), pos + 2) == word_at(bs, pos + 2));
                if p1 + 2 <= k {
                    assert(word_at(bs.take(k), p1) == word_at(bs, p1));
                }
            }
        }
    };
}

/// The record renderer for file entries, as a value.
pub open spec fn file_report_fn() -> spec_fn(FileModel) -> Seq<char> {
    |m: FileModel| spec_report_file(m)
}

impl File {
    /// Renders the entry's report block.
    pub fn report(&self) -> (r: String)
        requires
            self@.wf(),
        ensures
            r@ == spec_report_file(self@),
    {
        let mut out = String::new();
        out.append("\t");
        append_dec(&mut out, self.file_pointer as u64);
        out.append(" Offsets\n\t");
        append_dec(&mut out, self.file_name_length as u64);
        out.append(" Chars in Filename\n\t");
        let name = self.get_file_name();
        out.append(name.as_str());
        out.append(" Filename\n\t");
        append_dec(&mut out, self.file_pathname_length as u64);
        out.append(" Chars in File Pathname\n\t");
        let pathname = self.get_file_pathname();
        out.append(pathname.as_str());
        out.append(" File Pathname\n\t");
        append_dec(&mut out, self.member_sequence_number as u64);
        out.append(" Sequence number\n\t0x");
        append_hex(&mut out, self.file_crc as u64);
        out.append(" CRC\n\n");
        proof {
            assert(out@ =~= spec_report_file(self@));
        }
        out
    }
}

} // verus!
