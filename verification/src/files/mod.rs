//! The list-of-files header codec.

pub mod file;

use vstd::prelude::*;

use crate::error::DecodeError;
use crate::file_class::{class_string, spec_class_string, spec_classify, FileClass};
use crate::parse::{
    lemma_parse_list_prefix, lemma_parse_list_wf, lemma_prepend_parsed_push, parse_list,
    prepend_parsed,
};
use crate::reader::Reader;
use crate::render::{
    append_dec, append_hex, concat_reports, lemma_concat_reports_push, spec_dec, spec_hex,
};
use crate::utils::{
    ascii_chars_of, combine_words, is_ascii_bytes, packed_string_bytes, packed_text, spec_combine,
    vec16_to_string, word_at, word_count, words_at,
};

use self::file::{
    file_parser, file_report_fn, lemma_parse_file_local, lemma_parse_file_wf, parse_file,
    spec_report_file, File, FileModel,
};

verus! {

/// The decoded list-of-files header.
///
/// The `spare` field and the file-check-value pointer exist on disk only
/// when the format version is not the base version 0x8002; when absent they
/// decode as zero. The file-check-value triad is present only when the
/// version is not the base version and its pointer is nonzero.
#[derive(Debug, Clone, PartialEq, Eq)]
pub struct FilesLum {
    pub file_length_msb: u16,
    pub file_length_lsb: u16,
    pub media_file_format_version: u16,
    pub spare: u16,
    pub pointer_to_media_set_pn_length_msb: u16,
    pub pointer_to_media_set_pn_length_lsb: u16,
    pub pointer_to_number_of_media_set_files_msb: u16,
    pub pointer_to_number_of_media_set_files_lsb: u16,
    pub pointer_to_user_defined_data_msb: u16,
    pub pointer_to_user_defined_data_lsb: u16,
    pub pointer_to_file_check_value_length_msb: u16,
    pub pointer_to_file_check_value_length_lsb: u16,
    pub media_set_pn_length: u16,
    pub media_set_pn: Vec<u16>,
    pub media_sequence_number_x: u8,
    pub number_of_media_set_members_y: u8,
    pub number_of_media_set_files: u16,
    pub media_set_files: Vec<File>,
    pub user_defined_data: Option<Vec<u16>>,
    pub file_check_value_length: Option<u16>,
    pub file_check_value_type: Option<u16>,
    pub file_check_value: Option<Vec<u16>>,
    pub file_crc: u16,
}

/// The mathematical value of a [`FilesLum`].
#[verifier::ext_equal]
pub struct FilesLumModel {
    pub file_length_msb: u16,
    pub file_length_lsb: u16,
    pub media_file_format_version: u16,
    pub spare: u16,
    pub pointer_to_media_set_pn_length_msb: u16,
    pub pointer_to_media_set_pn_length_lsb: u16,
    pub pointer_to_number_of_media_set_files_msb: u16,
    pub pointer_to_number_of_media_set_files_lsb: u16,
    pub pointer_to_user_defined_data_msb: u16,
    pub pointer_to_user_defined_data_lsb: u16,
    pub pointer_to_file_check_value_length_msb: u16,
    pub pointer_to_file_check_value_length_lsb: u16,
    pub media_set_pn_length: u16,
    pub media_set_pn: Seq<u16>,
    pub media_sequence_number_x: u8,
    pub number_of_media_set_members_y: u8,
    pub number_of_media_set_files: u16,
    pub media_set_files: Seq<FileModel>,
    pub user_defined_data: Option<Seq<u16>>,
    pub file_check_value_length: Option<u16>,
    pub file_check_value_type: Option<u16>,
    pub file_check_value: Option<Seq<u16>>,
    pub file_crc: u16,
}

/// The mathematical values of a sequence of file entries.
pub open spec fn views_of_file(s: Seq<File>) -> Seq<FileModel> {
    s.map_values(|f: File| f@)
}

impl View for FilesLum {
    type V = FilesLumModel;

    open spec fn view(&self) -> FilesLumModel {
        FilesLumModel {
            file_length_msb: self.file_length_msb,
            file_length_lsb: self.file_length_lsb,
            media_file_format_version: self.media_file_format_version,
            spare: self.spare,
            pointer_to_media_set_pn_length_msb: self.pointer_to_media_set_pn_length_msb,
            pointer_to_media_set_pn_length_lsb: self.pointer_to_media_set_pn_length_lsb,
            pointer_to_number_of_media_set_files_msb: self.pointer_to_number_of_media_set_files_msb,
            pointer_to_number_of_media_set_files_lsb: self.pointer_to_number_of_media_set_files_lsb,
            pointer_to_user_defined_data_msb: self.pointer_to_user_defined_data_msb,
            pointer_to_user_defined_data_lsb: self.pointer_to_user_defined_data_lsb,
            pointer_to_file_check_value_length_msb: self.pointer_to_file_check_value_length_msb,
            pointer_to_file_check_value_length_lsb: self.pointer_to_file_check_value_length_lsb,
            media_set_pn_length: self.media_set_pn_length,
            media_set_pn: self.media_set_pn@,
            media_sequence_number_x: self.media_sequence_number_x,
            number_of_media_set_members_y: self.number_of_media_set_members_y,
            number_of_media_set_files: self.number_of_media_set_files,
            media_set_files: views_of_file(self.media_set_files@),
            user_defined_data: match self.user_defined_data {
                Some(ref u) => Some(u@),
                None => None,
            },
            file_check_value_length: self.file_check_value_length,
            file_check_value_type: self.file_check_value_type,
            file_check_value: match self.file_check_value {
                Some(ref v) => Some(v@),
                None => None,
            },
            file_crc: self.file_crc,
        }
    }
}

impl FilesLumModel {
    /// The declared total record length, in 16-bit words.
    pub open spec fn total_length_words(self) -> u32 {
        spec_combine(self.file_length_msb, self.file_length_lsb)
    }

    /// The word offset of the media-set part-number length field.
    pub open spec fn media_set_pn_length_pointer(self) -> u32 {
        spec_combine(
            self.pointer_to_media_set_pn_length_msb,
            self.pointer_to_media_set_pn_length_lsb,
        )
    }

    /// The word offset of the file-count field.
    pub open spec fn number_of_media_set_files_pointer(self) -> u32 {
        spec_combine(
            self.pointer_to_number_of_media_set_files_msb,
            self.pointer_to_number_of_media_set_files_lsb,
        )
    }

    /// The word offset of the user-defined-data block; zero when the block
    /// is absent.
    pub open spec fn user_defined_data_pointer(self) -> u32 {
        spec_combine(self.pointer_to_user_defined_data_msb, self.pointer_to_user_defined_data_lsb)
    }

    /// The word offset of the file-check-value length field; zero when the
    /// triad is absent.
    pub open spec fn file_check_value_length_pointer(self) -> u32 {
        spec_combine(
            self.pointer_to_file_check_value_length_msb,
            self.pointer_to_file_check_value_length_lsb,
        )
    }

    /// True when the format version is the base version, whose layout has no
    /// spare field and no file-check-value fields.
    pub open spec fn is_base_version(self) -> bool {
        self.media_file_format_version == 0x8002
    }

    /// Packed strings hold the word counts their character counts call for,
    /// the entry array holds exactly the declared number of well-formed
    /// entries, user-defined data is present if and only if its pointer is
    /// nonzero, and the version-gated fields are present exactly when the
    /// version and their controlling pointer call for them.
    pub open spec fn wf(self) -> bool {
        &&& self.media_set_pn.len() == word_count(self.media_set_pn_length as int)
        &&& self.media_set_files.len() == self.number_of_media_set_files
        &&& forall|i: int|
            0 <= i < self.media_set_files.len() ==> (#[trigger] self.media_set_files[i]).wf()
        &&& match self.user_defined_data {
            Some(u) => self.user_defined_data_pointer() != 0 && self.total_length_words()
                >= self.user_defined_data_pointer() + 1 && u.len() == word_count(
                self.total_length_words() - self.user_defined_data_pointer() - 1,
            ),
            None => self.user_defined_data_pointer() == 0,
        }
        &&& self.is_base_version() ==> self.spare == 0 && self.file_check_value_length_pointer()
            == 0
        &&& self.file_check_value_length is Some <==> !self.is_base_version()
            && self.file_check_value_length_pointer() != 0
        &&& self.file_check_value_type is Some <==> self.file_check_value_length is Some
        &&& match self.file_check_value {
            Some(v) => self.file_check_value_length matches Some(l) && v.len() == word_count(
                l as int,
            ),
            None => self.file_check_value_length is None,
        }
    }
}

/// The version-dependent tail of a list-of-files record: the optional
/// user-defined data, the optional file-check-value triad, and the trailing
/// CRC, parsed at byte offset `p2` just past the entry array.
pub open spec fn parse_files_tail(
    bs: Seq<u8>,
    p2: int,
    base_version: bool,
    total: u32,
    udd_ptr: u32,
    fcv_ptr: u32,
) -> Result<((Option<Seq<u16>>, Option<u16>, Option<u16>, Option<Seq<u16>>, u16), int), DecodeError> {
    let uw = word_count(total - udd_ptr - 1);
    let p3 = if udd_ptr != 0 {
        p2 + 2 * uw
    } else {
        p2
    };
    if udd_ptr != 0 && total < udd_ptr + 1 {
        Err(DecodeError::LengthUnderflow)
    } else if p3 > bs.len() {
        Err(DecodeError::Truncated)
    } else {
        let udd = if udd_ptr != 0 {
            Some(words_at(bs, p2, uw))
        } else {
            None
        };
        if !base_version && fcv_ptr != 0 {
            let fcv_len = word_at(bs, p3);
            let vw = word_count(fcv_len as int);
            if p3 + 4 > bs.len() {
                Err(DecodeError::Truncated)
            } else if p3 + 4 + 2 * vw + 2 > bs.len() {
                Err(DecodeError::Truncated)
            } else {
                Ok(
                    (
                        (
                            udd,
                            Some(fcv_len),
                            Some(word_at(bs, p3 + 2)),
                            Some(words_at(bs, p3 + 4, vw)),
                            word_at(bs, p3 + 4 + 2 * vw),
                        ),
                        p3 + 4 + 2 * vw + 2,
                    ),
                )
            }
        } else {
            if p3 + 2 > bs.len() {
                Err(DecodeError::Truncated)
            } else {
                Ok(((udd, None, None, None, word_at(bs, p3)), p3 + 2))
            }
        }
    }
}

/// Parses a list-of-files header record at byte offset `pos`.
pub open spec fn parse_files_lum(bs: Seq<u8>, pos: int) -> Result<(FilesLumModel, int), DecodeError> {
    let version = word_at(bs, pos + 4);
    let o = if version != 0x8002 {
        2int
    } else {
        0int
    };
    let fo = if version != 0x8002 {
        4int
    } else {
        0int
    };
    let base = pos + 6 + o;
    let pn_len = word_at(bs, base + 12 + fo);
    let nw = word_count(pn_len as int);
    let p1 = base + 14 + fo + 2 * nw;
    let n_files = word_at(bs, p1 + 2);
    if pos + 20 + o + fo > bs.len() {
        Err(DecodeError::Truncated)
    } else if p1 + 4 > bs.len() {
        Err(DecodeError::Truncated)
    } else {
        match parse_list(file_parser(), bs, p1 + 4, n_files as int) {
            Ok(p) => {
                let total = spec_combine(word_at(bs, pos), word_at(bs, pos + 2));
                let udd_ptr = spec_combine(word_at(bs, base + 8), word_at(bs, base + 10));
                let fcv_ptr = if version != 0x8002 {
                    spec_combine(word_at(bs, base + 12), word_at(bs, base + 14))
                } else {
                    0
                };
                match parse_files_tail(bs, p.1, version == 0x8002, total, udd_ptr, fcv_ptr) {
                    Ok(t) => Ok((files_lum_model(bs, pos, p.0, t.0), t.1)),
                    Err(e) => Err(e),
                }
            },
            Err(e) => Err(e),
        }
    }
}

/// The header value assembled from the fixed fields at `pos` plus the parsed
/// entries and tail.
pub open spec fn files_lum_model(
    bs: Seq<u8>,
    pos: int,
    files: Seq<FileModel>,
    tail: (Option<Seq<u16>>, Option<u16>, Option<u16>, Option<Seq<u16>>, u16),
) -> FilesLumModel {
    let version = word_at(bs, pos + 4);
    let o = if version != 0x8002 {
        2int
    } else {
        0int
    };
    let fo = if version != 0x8002 {
        4int
    } else {
        0int
    };
    let base = pos + 6 + o;
    let pn_len = word_at(bs, base + 12 + fo);
    let nw = word_count(pn_len as int);
    let p1 = base + 14 + fo + 2 * nw;
    FilesLumModel {
        file_length_msb: word_at(bs, pos),
        file_length_lsb: word_at(bs, pos + 2),
        media_file_format_version: version,
        spare: if version != 0x8002 {
            word_at(bs, pos + 6)
        } else {
            0
        },
        pointer_to_media_set_pn_length_msb: word_at(bs, base),
        pointer_to_media_set_pn_length_lsb: word_at(bs, base + 2),
        pointer_to_number_of_media_set_files_msb: word_at(bs, base + 4),
        pointer_to_number_of_media_set_files_lsb: word_at(bs, base + 6),
        pointer_to_user_defined_data_msb: word_at(bs, base + 8),
        pointer_to_user_defined_data_lsb: word_at(bs, base + 10),
        pointer_to_file_check_value_length_msb: if version != 0x8002 {
            word_at(bs, base + 12)
        } else {
            0
        },
        pointer_to_file_check_value_length_lsb: if version != 0x8002 {
            word_at(bs, base + 14)
        } else {
            0
        },
        media_set_pn_length: pn_len,
        media_set_pn: words_at(bs, base + 14 + fo, nw),
        media_sequence_number_x: bs[p1],
        number_of_media_set_members_y: bs[p1 + 1],
        number_of_media_set_files: word_at(bs, p1 + 2),
        media_set_files: files,
        user_defined_data: tail.0,
        file_check_value_length: tail.1,
        file_check_value_type: tail.2,
        file_check_value: tail.3,
        file_crc: tail.4,
    }
}

/// What decoding a whole buffer as a list-of-files header yields.
pub open spec fn spec_decode_files_lum(bs: Seq<u8>) -> Result<FilesLumModel, DecodeError> {
    match parse_files_lum(bs, 0) {
        Ok(p) => Ok(p.0),
        Err(e) => Err(e),
    }
}

/// The mathematical value of a decode result.
pub open spec fn view_files_result(r: Result<FilesLum, DecodeError>) -> Result<
    FilesLumModel,
    DecodeError,
> {
    match r {
        Ok(h) => Ok(h@),
        Err(e) => Err(e),
    }
}

/// The fixed leading part of a list-of-files record: every field up to and
/// including the entry count.
struct FilesHead {
    file_length_msb: u16,
    file_length_lsb: u16,
    media_file_format_version: u16,
    spare: u16,
    pointer_to_media_set_pn_length_msb: u16,
    pointer_to_media_set_pn_length_lsb: u16,
    pointer_to_number_of_media_set_files_msb: u16,
    pointer_to_number_of_media_set_files_lsb: u16,
    pointer_to_user_defined_data_msb: u16,
    pointer_to_user_defined_data_lsb: u16,
    pointer_to_file_check_value_length_msb: u16,
    pointer_to_file_check_value_length_lsb: u16,
    media_set_pn_length: u16,
    media_set_pn: Vec<u16>,
    media_sequence_number_x: u8,
    number_of_media_set_members_y: u8,
    number_of_media_set_files: u16,
}

/// True when the buffer holds the whole fixed head of a list-of-files
/// record at `pos`: exactly the two leading length checks of
/// [`parse_files_lum`].
pub open spec fn files_head_ok(bs: Seq<u8>, pos: int) -> bool {
    let version = word_at(bs, pos + 4);
    let o = if version != 0x8002 {
        2int
    } else {
        0int
    };
    let fo = if version != 0x8002 {
        4int
    } else {
        0int
    };
    let base = pos + 6 + o;
    let pn_len = word_at(bs, base + 12 + fo);
    let nw = word_count(pn_len as int);
    let p1 = base + 14 + fo + 2 * nw;
    pos + 20 + o + fo <= bs.len() && p1 + 4 <= bs.len()
}

/// The byte offset just past the fixed head of a list-of-files record at
/// `pos`.
pub open spec fn files_head_end(bs: Seq<u8>, pos: int) -> int {
    let version = word_at(bs, pos + 4);
    let o = if version != 0x8002 {
        2int
    } else {
        0int
    };
    let fo = if version != 0x8002 {
        4int
    } else {
        0int
    };
    let base = pos + 6 + o;
    let pn_len = word_at(bs, base + 12 + fo);
    let nw = word_count(pn_len as int);
    base + 14 + fo + 2 * nw + 4
}

/// The head's fields are exactly the words and bytes of the fixed leading
/// part of the record at `pos`, absent version-gated fields reading as zero.
spec fn files_head_matches(h: FilesHead, bs: Seq<u8>, pos: int) -> bool {
    let version = word_at(bs, pos + 4);
    let o = if version != 0x8002 {
        2int
    } else {
        0int
    };
    let fo = if version != 0x8002 {
        4int
    } else {
        0int
    };
    let base = pos + 6 + o;
    let pn_len = word_at(bs, base + 12 + fo);
    let nw = word_count(pn_len as int);
    let p1 = base + 14 + fo + 2 * nw;
    &&& h.file_length_msb == word_at(bs, pos)
    &&& h.file_length_lsb == word_at(bs, pos + 2)
    &&& h.media_file_format_version == version
    &&& h.spare == if version != 0x8002 {
        word_at(bs, pos + 6)
    } else {
        0u16
    }
    &&& h.pointer_to_media_set_pn_length_msb == word_at(bs, base)
    &&& h.pointer_to_media_set_pn_length_lsb == word_at(bs, base + 2)
    &&& h.pointer_to_number_of_media_set_files_msb == word_at(bs, base + 4)
    &&& h.pointer_to_number_of_media_set_files_lsb == word_at(bs, base + 6)
    &&& h.pointer_to_user_defined_data_msb == word_at(bs, base + 8)
    &&& h.pointer_to_user_defined_data_lsb == word_at(bs, base + 10)
    &&& h.pointer_to_file_check_value_length_msb == if version != 0x8002 {
        word_at(bs, base + 12)
    } else {
        0u16
    }
    &&& h.pointer_to_file_check_value_length_lsb == if version != 0x8002 {
        word_at(bs, base + 14)
    } else {
        0u16
    }
    &&& h.media_set_pn_length == pn_len
    &&& h.media_set_pn@ == words_at(bs, base + 14 + fo, nw)
    &&& h.media_sequence_number_x == bs[p1]
    &&& h.number_of_media_set_members_y == bs[p1 + 1]
    &&& h.number_of_media_set_files == word_at(bs, p1 + 2)
}

/// Decodes the fixed head of a list-of-files record at the reader's
/// position.
#[verifier::rlimit(100)]
#[verifier::spinoff_prover]
fn decode_files_head(r: &mut Reader<'_>) -> (res: Result<FilesHead, DecodeError>)
    requires
        old(r).wf(),
    ensures
        final(r).wf(),
        final(r).data@ == old(r).data@,
        match res {
            Ok(h) => files_head_ok(old(r).data@, old(r).pos as int) && files_head_matches(
                h,
                old(r).data@,
                old(r).pos as int,
            ) && final(r).pos == files_head_end(old(r).data@, old(r).pos as int),
            Err(e) => e == DecodeError::Truncated && !files_head_ok(
                old(r).data@,
                old(r).pos as int,
            ),
        },
{
    let ghost bs = old(r).data@;
    let ghost pos = old(r).pos as int;
    let lead = match r.read_words(3) {
        Ok(v) => v,
        Err(e) => return Err(e),
    };
    let file_length_msb = lead[0];
    let file_length_lsb = lead[1];
    let media_file_format_version = lead[2];
    let gated = media_file_format_version != 0x8002;
    let rest_count: usize = if gated {
        10
    } else {
        7
    };
    let rest = match r.read_words(rest_count) {
        Ok(v) => v,
        Err(e) => return Err(e),
    };
    let spare = if gated {
        rest[0]
    } else {
        0
    };
    let k: usize = if gated {
        1
    } else {
        0
    };
    let pointer_to_media_set_pn_length_msb = rest[k];
    let pointer_to_media_set_pn_length_lsb = rest[k + 1];
    let pointer_to_number_of_media_set_files_msb = rest[k + 2];
    let pointer_to_number_of_media_set_files_lsb = rest[k + 3];
    let pointer_to_user_defined_data_msb = rest[k + 4];
    let pointer_to_user_defined_data_lsb = rest[k + 5];
    let (pointer_to_file_check_value_length_msb, pointer_to_file_check_value_length_lsb) = if gated {
        (rest[7], rest[8])
    } else {
        (0, 0)
    };
    let media_set_pn_length = rest[rest_count - 1];
    let nw = media_set_pn_length / 2 + media_set_pn_length % 2;
    let media_set_pn = match r.read_words(nw as usize) {
        Ok(v) => v,
        Err(e) => return Err(e),
    };
    let media_sequence_number_x = match r.read_u8() {
        Ok(v) => v,
        Err(e) => return Err(e),
    };
    let number_of_media_set_members_y = match r.read_u8() {
        Ok(v) => v,
        Err(e) => return Err(e),
    };
    let number_of_media_set_files = match r.read_u16() {
        Ok(v) => v,
        Err(e) => return Err(e),
    };
    Ok(
        FilesHead {
            file_length_msb,
            file_length_lsb,
            media_file_format_version,
            spare,
            pointer_to_media_set_pn_length_msb,
            pointer_to_media_set_pn_length_lsb,
            pointer_to_number_of_media_set_files_msb,
            pointer_to_number_of_media_set_files_lsb,
            pointer_to_user_defined_data_msb,
            pointer_to_user_defined_data_lsb,
            pointer_to_file_check_value_length_msb,
            pointer_to_file_check_value_length_lsb,
            media_set_pn_length,
            media_set_pn,
            media_sequence_number_x,
            number_of_media_set_members_y,
            number_of_media_set_files,
        },
    )
}

/// The mathematical value of a decoded tail.
pub open spec fn view_files_tail(
    t: (Option<Vec<u16>>, Option<u16>, Option<u16>, Option<Vec<u16>>, u16),
) -> (Option<Seq<u16>>, Option<u16>, Option<u16>, Option<Seq<u16>>, u16) {
    (
        match t.0 {
            Some(u) => Some(u@),
            None => None,
        },
        t.1,
        t.2,
        match t.3 {
            Some(v) => Some(v@),
            None => None,
        },
        t.4,
    )
}

/// A parsed tail carries user-defined data exactly when its pointer is
/// nonzero and the file-check-value triad exactly when the version and its
/// pointer call for it, each with its derived length, and ends within the
/// buffer.
pub proof fn lemma_parse_files_tail_wf(
    bs: Seq<u8>,
    p2: int,
    base_version: bool,
    total: u32,
    udd_ptr: u32,
    fcv_ptr: u32,
)
    requires
        0 <= p2,
        parse_files_tail(bs, p2, base_version, total, udd_ptr, fcv_ptr) is Ok,
    ensures
        ({
            let t = parse_files_tail(bs, p2, base_version, total, udd_ptr, fcv_ptr)->Ok_0.0;
            let end = parse_files_tail(bs, p2, base_version, total, udd_ptr, fcv_ptr)->Ok_0.1;
            &&& p2 < end <= bs.len()
            &&& match t.0 {
                Some(u) => udd_ptr != 0 && total >= udd_ptr + 1 && u.len() == word_count(
                    total - udd_ptr - 1,
                ),
                None => udd_ptr == 0,
            }
            &&& t.1 is Some <==> !base_version && fcv_ptr != 0
            &&& t.2 is Some <==> t.1 is Some
            &&& match t.3 {
                Some(v) => t.1 matches Some(l) && v.len() == word_count(l as int),
                None => t.1 is None,
            }
        }),
{
}

/// A parsed list-of-files header is well formed.
pub proof fn lemma_parse_files_lum_wf(bs: Seq<u8>, pos: int)
    requires
        0 <= pos,
        parse_files_lum(bs, pos) is Ok,
    ensures
        parse_files_lum(bs, pos)->Ok_0.0.wf(),
        pos < parse_files_lum(bs, pos)->Ok_0.1 <= bs.len(),
{
    let wf_m = |f: FileModel| f.wf();
    assert forall|p: int| 0 <= p && (#[trigger] file_parser()(bs, p)) is Ok implies wf_m(
        file_parser()(bs, p)->Ok_0.0,
    ) && p < file_parser()(bs, p)->Ok_0.1 <= bs.len() by {
        lemma_parse_file_wf(bs, p);
    }
    let version = word_at(bs, pos + 4);
    let o = if version != 0x8002 {
        2int
    } else {
        0int
    };
    let fo = if version != 0x8002 {
        4int
    } else {
        0int
    };
    let base = pos + 6 + o;
    let pn_len = word_at(bs, base + 12 + fo);
    let nw = word_count(pn_len as int);
    let p1 = base + 14 + fo + 2 * nw;
    let n_files = word_at(bs, p1 + 2);
    lemma_parse_list_wf(file_parser(), wf_m, bs, p1 + 4, n_files as int);
    let p = parse_list(file_parser(), bs, p1 + 4, n_files as int)->Ok_0;
    let total = spec_combine(word_at(bs, pos), word_at(bs, pos + 2));
    let udd_ptr = spec_combine(word_at(bs, base + 8), word_at(bs, base + 10));
    let fcv_ptr = if version != 0x8002 {
        spec_combine(word_at(bs, base + 12), word_at(bs, base + 14))
    } else {
        0
    };
    lemma_parse_files_tail_wf(bs, p.1, version == 0x8002, total, udd_ptr, fcv_ptr);
}

/// A decodable record tail reads only bytes before its end offset:
/// truncating the buffer at or past the end changes nothing, and truncating
/// it earlier turns the parse into a failure.
pub proof fn lemma_parse_files_tail_prefix(
    bs: Seq<u8>,
    p2: int,
    base_version: bool,
    total: u32,
    udd_ptr: u32,
    fcv_ptr: u32,
    k: int,
)
    requires
        0 <= p2,
        0 <= k <= bs.len(),
        parse_files_tail(bs, p2, base_version, total, udd_ptr, fcv_ptr) is Ok,
    ensures
        ({
            let end = parse_files_tail(bs, p2, base_version, total, udd_ptr, fcv_ptr)->Ok_0.1;
            &&& p2 <= end <= bs.len()
            &&& (end <= k ==> parse_files_tail(bs.take(k), p2, base_version, total, udd_ptr, fcv_ptr)
                == parse_files_tail(bs, p2, base_version, total, udd_ptr, fcv_ptr))
            &&& (p2 <= k < end ==> parse_files_tail(
                bs.take(k),
                p2,
                base_version,
                total,
                udd_ptr,
                fcv_ptr,
            ) is Err)
        }),
{
    let uw = word_count(total - udd_ptr - 1);
    let p3 = if udd_ptr != 0 {
        p2 + 2 * uw
    } else {
        p2
    };
    let fcv_len = word_at(bs, p3);
    let vw = word_count(fcv_len as int);
    let end = parse_files_tail(bs, p2, base_version, total, udd_ptr, fcv_ptr)->Ok_0.1;
    if end <= k {
        if udd_ptr != 0 {
            assert(words_at(bs.take(k), p2, uw) =~= words_at(bs, p2, uw));
        }
        if !base_version && fcv_ptr != 0 {
            assert(word_at(bs.take(k), p3) == word_at(bs, p3));
            assert(word_at(bs.take(k), p3 + 2) == word_at(bs, p3 + 2));
            assert(words_at(bs.take(k), p3 + 4, vw) =~= words_at(bs, p3 + 4, vw));
            assert(word_at(bs.take(k), p3 + 4 + 2 * vw) == word_at(bs, p3 + 4 + 2 * vw));
        } else {
            assert(word_at(bs.take(k), p3) == word_at(bs, p3));
        }
        assert(parse_files_tail(bs.take(k), p2, base_version, total, udd_ptr, fcv_ptr) is Ok);
        assert(parse_files_tail(bs.take(k), p2, base_version, total, udd_ptr, fcv_ptr)->Ok_0.0.0
            =~= parse_files_tail(bs, p2, base_version, total, udd_ptr, fcv_ptr)->Ok_0.0.0);
        assert(parse_files_tail(bs.take(k), p2, base_version, total, udd_ptr, fcv_ptr)->Ok_0.0.3
            =~= parse_files_tail(bs, p2, base_version, total, udd_ptr, fcv_ptr)->Ok_0.0.3);
        assert(parse_files_tail(bs.take(k), p2, base_version, total, udd_ptr, fcv_ptr)
            == parse_files_tail(bs, p2, base_version, total, udd_ptr, fcv_ptr));
    } else if p2 <= k < end {
        if !base_version && fcv_ptr != 0 {
            if p3 + 4 <= k {
                assert(word_at(bs.take(k), p3) == word_at(bs, p3));
            }
        }
    }
}

/// Decodes the version-dependent tail of a list-of-files record at the
/// reader's position.
fn decode_files_tail(
    r: &mut Reader<'_>,
    base_version: bool,
    total: u32,
    udd_ptr: u32,
    fcv_ptr: u32,
) -> (res: Result<(Option<Vec<u16>>, Option<u16>, Option<u16>, Option<Vec<u16>>, u16), DecodeError>)
    requires
        old(r).wf(),
    ensures
        final(r).wf(),
        final(r).data@ == old(r).data@,
        match res {
            Ok(t) => parse_files_tail(
                old(r).data@,
                old(r).pos as int,
                base_version,
                total,
                udd_ptr,
                fcv_ptr,
            ) == Ok::<_, DecodeError>((view_files_tail(t), final(r).pos as int)),
            Err(e) => parse_files_tail(
                old(r).data@,
                old(r).pos as int,
                base_version,
                total,
                udd_ptr,
                fcv_ptr,
            ) == Err::<((Option<Seq<u16>>, Option<u16>, Option<u16>, Option<Seq<u16>>, u16), int), _>(
                e,
            ),
        },
{
    let user_defined_data = if udd_ptr != 0 {
        if total <= udd_ptr {
            return Err(DecodeError::LengthUnderflow);
        }
        let diff = total - udd_ptr - 1;
        let uw = diff / 2 + diff % 2;
        match r.read_words(uw as usize) {
            Ok(v) => Some(v),
            Err(e) => return Err(e),
        }
    } else {
        None
    };
    if !base_version && fcv_ptr != 0 {
        let file_check_value_length = match r.read_u16() {
            Ok(v) => v,
            Err(e) => return Err(e),
        };
        let file_check_value_type = match r.read_u16() {
            Ok(v) => v,
            Err(e) => return Err(e),
        };
        let vw = file_check_value_length / 2 + file_check_value_length % 2;
        let file_check_value = match r.read_words(vw as usize) {
            Ok(v) => v,
            Err(e) => return Err(e),
        };
        let file_crc = match r.read_u16() {
            Ok(v) => v,
            Err(e) => return Err(e),
        };
        Ok(
            (
                user_defined_data,
                Some(file_check_value_length),
                Some(file_check_value_type),
                Some(file_check_value),
                file_crc,
            ),
        )
    } else {
        let file_crc = match r.read_u16() {
            Ok(v) => v,
            Err(e) => return Err(e),
        };
        Ok((user_defined_data, None, None, None, file_crc))
    }
}

/// Decodes `n` consecutive file entries at the reader's position.
fn decode_file_entries(r: &mut Reader<'_>, n: usize) -> (res: Result<Vec<File>, DecodeError>)
    requires
        old(r).wf(),
    ensures
        final(r).wf(),
        final(r).data@ == old(r).data@,
        match res {
            Ok(v) => parse_list(file_parser(), old(r).data@, old(r).pos as int, n as int) == Ok::<
                _,
                DecodeError,
            >((views_of_file(v@), final(r).pos as int)),
            Err(e) => parse_list(file_parser(), old(r).data@, old(r).pos as int, n as int)
                == Err::<(Seq<FileModel>, int), _>(e),
        },
{
    let ghost bs = old(r).data@;
    let ghost f = file_parser();
    let ghost plist = old(r).pos as int;
    let mut entries: Vec<File> = Vec::new();
    let mut i: usize = 0;
    while i < n
        invariant
            i <= n,
            r.wf(),
            bs == old(r).data@,
            r.data@ == bs,
            f == file_parser(),
            plist == old(r).pos as int,
            entries@.len() == i,
            prepend_parsed(views_of_file(entries@), parse_list(f, bs, r.pos as int, n - i))
                == parse_list(f, bs, plist, n as int),
        decreases n - i,
    {
        let ghost q = r.pos as int;
        match File::decode(r) {
            Ok(fe) => {
                proof {
                    assert(file_parser()(bs, q) == parse_file(bs, q));
                    lemma_prepend_parsed_push(
                        views_of_file(entries@),
                        fe@,
                        parse_list(f, bs, r.pos as int, n - i - 1),
                    );
                    assert(views_of_file(entries@.push(fe)) =~= views_of_file(entries@).push(
                        fe@,
                    ));
                }
                entries.push(fe);
                i += 1;
            },
            Err(e) => {
                proof {
                    assert(file_parser()(bs, q) == parse_file(bs, q));
                }
                return Err(e);
            },
        }
    }
    proof {
        assert(views_of_file(entries@) + Seq::<FileModel>::empty() =~= views_of_file(entries@));
    }
    Ok(entries)
}

/// A decodable list-of-files record reads only bytes before its end offset:
/// truncating the buffer at or past the end changes nothing, and truncating
/// it earlier turns the parse into a failure.
#[verifier::rlimit(100)]
#[verifier::spinoff_prover]
pub proof fn lemma_parse_files_lum_prefix(bs: Seq<u8>, pos: int, k: int)
    requires
        0 <= pos,
        0 <= k <= bs.len(),
        parse_files_lum(bs, pos) is Ok,
    ensures
        ({
            let end = parse_files_lum(bs, pos)->Ok_0.1;
            &&& pos <= end <= bs.len()
            &&& (end <= k ==> parse_files_lum(bs.take(k), pos) == parse_files_lum(bs, pos))
            &&& (pos <= k < end ==> parse_files_lum(bs.take(k), pos) is Err)
        }),
{
    lemma_parse_file_local();
    let g = file_parser();
    let version = word_at(bs, pos + 4);
    let o = if version != 0x8002 {
        2int
    } else {
        0int
    };
    let fo = if version != 0x8002 {
        4int
    } else {
        0int
    };
    let base = pos + 6 + o;
    let pn_len = word_at(bs, base + 12 + fo);
    let nw = word_count(pn_len as int);
    let p1 = base + 14 + fo + 2 * nw;
    let n_files = word_at(bs, p1 + 2);
    lemma_parse_list_prefix(g, bs, p1 + 4, n_files as int, k);
    let p2 = parse_list(g, bs, p1 + 4, n_files as int)->Ok_0.1;
    let total = spec_combine(word_at(bs, pos), word_at(bs, pos + 2));
    let udd_ptr = spec_combine(word_at(bs, base + 8), word_at(bs, base + 10));
    let fcv_ptr = if version != 0x8002 {
        spec_combine(word_at(bs, base + 12), word_at(bs, base + 14))
    } else {
        0u32
    };
    lemma_parse_files_tail_prefix(bs, p2, version == 0x8002, total, udd_ptr, fcv_ptr, k);
    let end = parse_files_lum(bs, pos)->Ok_0.1;
    if end <= k {
        assert forall|j: int| 0 <= j && j + 2 <= k implies #[trigger] word_at(bs.take(k), j)
            == word_at(bs, j) by {}
        assert(word_at(bs.take(k), pos + 4) == version);
        assert(words_at(bs.take(k), base + 14 + fo, nw) =~= words_at(bs, base + 14 + fo, nw));
        assert(bs.take(k)[p1] == bs[p1]);
        assert(bs.take(k)[p1 + 1] == bs[p1 + 1]);
        assert(parse_list(g, bs.take(k), p1 + 4, n_files as int) == parse_list(
            g,
            bs,
            p1 + 4,
            n_files as int,
        ));
        assert(parse_files_tail(bs.take(k), p2, version == 0x8002, total, udd_ptr, fcv_ptr)
            == parse_files_tail(bs, p2, version == 0x8002, total, udd_ptr, fcv_ptr));
        assert(parse_files_lum(bs.take(k), pos) is Ok);
        assert(parse_files_lum(bs.take(k), pos)->Ok_0.0 =~= parse_files_lum(bs, pos)->Ok_0.0);
        assert(parse_files_lum(bs.take(k), pos) == parse_files_lum(bs, pos));
    } else if pos <= k < end {
        if pos + 6 <= k {
            assert(word_at(bs.take(k), pos + 4) == version);
            if pos + 20 + o + fo <= k {
                assert(word_at(bs.take(k), base + 12 + fo) == pn_len);
                if p1 + 4 <= k {
                    assert(word_at(bs.take(k), p1 + 2) == n_files);
                    if p2 <= k {
                        assert(parse_list(g, bs.take(k), p1 + 4, n_files as int) == parse_list(
                            g,
                            bs,
                            p1 + 4,
                            n_files as int,
                        ));
                        assert(word_at(bs.take(k), pos) == word_at(bs, pos));
                        assert(word_at(bs.take(k), pos + 2) == word_at(bs, pos + 2));
                        assert(word_at(bs.take(k), base + 8) == word_at(bs, base + 8));
                        assert(word_at(bs.take(k), base + 10) == word_at(bs, base + 10));
                        if version != 0x8002 {
                            assert(word_at(bs.take(k), base + 12) == word_at(bs, base + 12));
                            assert(word_at(bs.take(k), base + 14) == word_at(bs, base + 14));
                        }
                        assert(parse_files_tail(
                            bs.take(k),
                            p2,
                            version == 0x8002,
                            total,
                            udd_ptr,
                            fcv_ptr,
                        ) is Err);
                    } else {
                        assert(parse_list(g, bs.take(k), p1 + 4, n_files as int) is Err);
                    }
                }
            }
        }
    }
}

/// Decoding is deterministic and side-effect-free: any two decodes of the
/// same buffer yield the same value, successes and failures alike.
pub proof fn lemma_decode_files_lum_deterministic(
    r1: Result<FilesLum, DecodeError>,
    r2: Result<FilesLum, DecodeError>,
    bs: Seq<u8>,
)
    requires
        view_files_result(r1) == spec_decode_files_lum(bs),
        view_files_result(r2) == spec_decode_files_lum(bs),
    ensures
        view_files_result(r1) == view_files_result(r2),
{
}

/// Truncating a decodable buffer anywhere before the decoded record's end
/// turns the decode into a structural failure, never a silent short read.
pub proof fn lemma_truncated_files_lum_fails(bs: Seq<u8>, k: int)
    requires
        spec_decode_files_lum(bs) is Ok,
        0 <= k < parse_files_lum(bs, 0)->Ok_0.1,
    ensures
        spec_decode_files_lum(bs.take(k)) is Err,
{
    lemma_parse_files_lum_prefix(bs, 0, k);
}

impl FilesLum {
    /// Decodes a list-of-files header from the start of a fully buffered
    /// record.
    ///
    /// Fails with `Truncated` when the buffer ends before a fixed or
    /// computed-length field, and with `LengthUnderflow` when the declared
    /// total length is smaller than the user-defined-data pointer plus one;
    /// otherwise the decoded header is exactly the parse of the buffer, and
    /// is well formed.
    #[verifier::loop_isolation(false)]
    #[verifier::rlimit(100)]
    #[verifier::spinoff_prover]
    pub fn decode(data: &[u8]) -> (res: Result<FilesLum, DecodeError>)
        ensures
            view_files_result(res) == spec_decode_files_lum(data@),
            res matches Ok(h) ==> h@.wf(),
    {
        let ghost bs = data@;
        let mut reader = Reader::new(data);
        let r = &mut reader;
        let head = match decode_files_head(r) {
            Ok(h) => h,
            Err(e) => return Err(e),
        };
        let FilesHead {
            file_length_msb,
            file_length_lsb,
            media_file_format_version,
            spare,
            pointer_to_media_set_pn_length_msb,
            pointer_to_media_set_pn_length_lsb,
            pointer_to_number_of_media_set_files_msb,
            pointer_to_number_of_media_set_files_lsb,
            pointer_to_user_defined_data_msb,
            pointer_to_user_defined_data_lsb,
            pointer_to_file_check_value_length_msb,
            pointer_to_file_check_value_length_lsb,
            media_set_pn_length,
            media_set_pn,
            media_sequence_number_x,
            number_of_media_set_members_y,
            number_of_media_set_files,
        } = head;
        let media_set_files = match decode_file_entries(r, number_of_media_set_files as usize) {
            Ok(v) => v,
            Err(e) => return Err(e),
        };
        let total = combine_words(file_length_msb, file_length_lsb);
        let udd_ptr = combine_words(
            pointer_to_user_defined_data_msb,
            pointer_to_user_defined_data_lsb,
        );
        let fcv_ptr = combine_words(
            pointer_to_file_check_value_length_msb,
            pointer_to_file_check_value_length_lsb,
        );
        let base_version = media_file_format_version == 0x8002;
        let tail = match decode_files_tail(r, base_version, total, udd_ptr, fcv_ptr) {
            Ok(t) => t,
            Err(e) => return Err(e),
        };
        let (user_defined_data, file_check_value_length, file_check_value_type, file_check_value,
            file_crc) = tail;
        let h = FilesLum {
            file_length_msb,
            file_length_lsb,
            media_file_format_version,
            spare,
            pointer_to_media_set_pn_length_msb,
            pointer_to_media_set_pn_length_lsb,
            pointer_to_number_of_media_set_files_msb,
            pointer_to_number_of_media_set_files_lsb,
            pointer_to_user_defined_data_msb,
            pointer_to_user_defined_data_lsb,
            pointer_to_file_check_value_length_msb,
            pointer_to_file_check_value_length_lsb,
            media_set_pn_length,
            media_set_pn,
            media_sequence_number_x,
            number_of_media_set_members_y,
            number_of_media_set_files,
            media_set_files,
            user_defined_data,
            file_check_value_length,
            file_check_value_type,
            file_check_value,
            file_crc,
        };
        proof {
            assert(parse_files_lum(bs, 0) == Ok::<_, DecodeError>((h@, r.pos as int)));
            lemma_parse_files_lum_wf(bs, 0);
        }
        Ok(h)
    }

    /// The semantic class the header's format version selects, if any.
    pub fn get_file_type(&self) -> (r: Option<FileClass>)
        ensures
            r == spec_classify(self@.media_file_format_version),
    {
        FileClass::get_file_type(self.media_file_format_version)
    }

    /// The declared total record length, in 16-bit words.
    pub fn get_file_length(&self) -> (r: u32)
        ensures
            r == self@.total_length_words(),
    {
        combine_words(self.file_length_msb, self.file_length_lsb)
    }

    /// The word offset of the media-set part-number length field.
    pub fn get_pointer_to_media_set_pn_length(&self) -> (r: u32)
        ensures
            r == self@.media_set_pn_length_pointer(),
    {
        combine_words(
            self.pointer_to_media_set_pn_length_msb,
            self.pointer_to_media_set_pn_length_lsb,
        )
    }

    /// The word offset of the file-count field.
    pub fn get_pointer_to_number_of_media_set_files(&self) -> (r: u32)
        ensures
            r == self@.number_of_media_set_files_pointer(),
    {
        combine_words(
            self.pointer_to_number_of_media_set_files_msb,
            self.pointer_to_number_of_media_set_files_lsb,
        )
    }

    /// The word offset of the user-defined-data block; zero when the block
    /// is absent.
    pub fn get_pointer_to_user_defined_data(&self) -> (r: u32)
        ensures
            r == self@.user_defined_data_pointer(),
    {
        combine_words(
            self.pointer_to_user_defined_data_msb,
            self.pointer_to_user_defined_data_lsb,
        )
    }

    /// The word offset of the file-check-value length field; zero when the
    /// triad is absent.
    pub fn get_pointer_to_file_check_value_length(&self) -> (r: u32)
        ensures
            r == self@.file_check_value_length_pointer(),
    {
        combine_words(
            self.pointer_to_file_check_value_length_msb,
            self.pointer_to_file_check_value_length_lsb,
        )
    }

    /// The media-set part number, decoded from its packed form; an odd
    /// length drops the final padding byte.
    pub fn get_media_set_pn(&self) -> (r: String)
        requires
            self@.wf(),
        ensures
            r@ == packed_text(self@.media_set_pn, self@.media_set_pn_length as int),
            is_ascii_bytes(
                packed_string_bytes(self@.media_set_pn, self@.media_set_pn_length as int),
            ) ==> r@ == ascii_chars_of(
                packed_string_bytes(self@.media_set_pn, self@.media_set_pn_length as int),
            ),
    {
        vec16_to_string(self.media_set_pn.as_slice(), self.media_set_pn_length as usize)
    }
}

/// The report for a whole list-of-files header: the byte length, the class
/// line, one labelled line per scalar field, one block per file entry in
/// on-disk order, and the trailing CRC in lowercase hexadecimal.
pub open spec fn spec_report_files_lum(m: FilesLumModel) -> Seq<char> {
    spec_dec(2 * m.total_length_words() as int) + " Bytes\n"@ + spec_class_string(
        m.media_file_format_version,
    ) + "\n"@ + spec_dec(m.media_set_pn_length_pointer() as int) + " | "@ + spec_dec(
        m.number_of_media_set_files_pointer() as int,
    ) + " | "@ + spec_dec(m.user_defined_data_pointer() as int) + " Offsets\n"@ + spec_dec(
        m.media_set_pn_length as int,
    ) + " Chars in Media Set PN\n"@ + packed_text(m.media_set_pn, m.media_set_pn_length as int)
        + " Media Set PN\n"@ + spec_dec(m.media_sequence_number_x as int) + " Media number\n"@
        + spec_dec(m.number_of_media_set_members_y as int) + " Total Media sets\n"@ + spec_dec(
        m.number_of_media_set_files as int,
    ) + " Total Media set files\n"@ + concat_reports(file_report_fn(), m.media_set_files) + "0x"@
        + spec_hex(m.file_crc as int) + " CRC\n"@
}

impl FilesLum {
    /// The class line for the header's format version: the class label, or
    /// the raw version with a fallback note when no class matches.
    pub fn get_file_type_string(&self) -> (r: String)
        ensures
            r@ == spec_class_string(self@.media_file_format_version),
    {
        class_string(self.media_file_format_version)
    }

    /// Renders the whole header's report.
    #[verifier::loop_isolation(false)]
    pub fn report(&self) -> (r: String)
        requires
            self@.wf(),
        ensures
            r@ == spec_report_files_lum(self@),
    {
        let mut out = String::new();
        append_dec(&mut out, (self.get_file_length() as u64) * 2);
        out.append(" Bytes\n");
        let class = self.get_file_type_string();
        out.append(class.as_str());
        out.append("\n");
        append_dec(&mut out, self.get_pointer_to_media_set_pn_length() as u64);
        out.append(" | ");
        append_dec(&mut out, self.get_pointer_to_number_of_media_set_files() as u64);
        out.append(" | ");
        append_dec(&mut out, self.get_pointer_to_user_defined_data() as u64);
        out.append(" Offsets\n");
        append_dec(&mut out, self.media_set_pn_length as u64);
        out.append(" Chars in Media Set PN\n");
        let pn = self.get_media_set_pn();
        out.append(pn.as_str());
        out.append(" Media Set PN\n");
        append_dec(&mut out, self.media_sequence_number_x as u64);
        out.append(" Media number\n");
        append_dec(&mut out, self.number_of_media_set_members_y as u64);
        out.append(" Total Media sets\n");
        append_dec(&mut out, self.number_of_media_set_files as u64);
        out.append(" Total Media set files\n");
        let ghost prefix = out@;
        let ghost views = views_of_file(self.media_set_files@);
        let n = self.media_set_files.len();
        let mut i: usize = 0;
        while i < n
            invariant
                i <= n,
                out@ == prefix + concat_reports(file_report_fn(), views.take(i as int)),
            decreases n - i,
        {
            proof {
                assert(views[i as int] == self.media_set_files@[i as int]@);
            }
            let block = self.media_set_files[i].report();
            out.append(block.as_str());
            proof {
                lemma_concat_reports_push(file_report_fn(), views.take(i as int), views[i as int]);
                assert(views.take(i + 1) =~= views.take(i as int).push(views[i as int]));
                assert(file_report_fn()(views[i as int]) == spec_report_file(views[i as int]));
            }
            i += 1;
        }
        proof {
            assert(views.take(n as int) =~= views);
        }
        out.append("0x");
        append_hex(&mut out, self.file_crc as u64);
        out.append(" CRC\n");
        proof {
            assert(out@ =~= spec_report_files_lum(self@));
        }
        out
    }
}

} // verus!
