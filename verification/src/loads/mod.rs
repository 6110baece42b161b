//! The list-of-loads header codec.

pub mod lsp;
pub mod target_hw;

use vstd::prelude::*;

use crate::error::DecodeError;
use crate::file_class::{class_string, spec_class_string, spec_classify, FileClass};
use crate::parse::{
    lemma_parse_list_prefix, lemma_parse_list_wf, lemma_prepend_parsed_push, parse_list,
    prepend_parsed,
};
use crate::reader::Reader;
use crate::render::{
    append_dec, append_hex, append_user_data, concat_reports, lemma_concat_reports_push,
    spec_dec, spec_hex, spec_user_data,
};
use crate::utils::{
    ascii_chars_of, combine_words, is_ascii_bytes, packed_string_bytes, packed_text, spec_combine,
    vec16_to_string, word_at, word_count, words_at,
};

use self::lsp::{
    lemma_parse_lsp_local, lemma_parse_lsp_wf, lsp_parser, lsp_report_fn, parse_lsp,
    spec_report_lsp, views_of_lsp, Lsp, LspModel,
};

verus! {

/// The decoded list-of-loads header.
#[derive(Debug, Clone, PartialEq, Eq)]
pub struct LoadsLum {
    pub file_length_msb: u16,
    pub file_length_lsb: u16,
    pub media_file_format_version: u16,
    pub pointer_to_media_set_pn_length_msb: u16,
    pub pointer_to_media_set_pn_length_lsb: u16,
    pub pointer_to_number_of_loads_msb: u16,
    pub pointer_to_number_of_loads_lsb: u16,
    pub pointer_to_user_defined_data_msb: u16,
    pub pointer_to_user_defined_data_lsb: u16,
    pub media_set_pn_length: u16,
    pub media_set_pn: Vec<u16>,
    pub media_sequence_number_x: u8,
    pub number_of_media_set_members_y: u8,
    pub number_of_loads: u16,
    pub loads: Vec<Lsp>,
    pub user_defined_data: Option<Vec<u16>>,
    pub file_crc: u16,
}

/// The mathematical value of a [`LoadsLum`].
#[verifier::ext_equal]
pub struct LoadsLumModel {
    pub file_length_msb: u16,
    pub file_length_lsb: u16,
    pub media_file_format_version: u16,
    pub pointer_to_media_set_pn_length_msb: u16,
    pub pointer_to_media_set_pn_length_lsb: u16,
    pub pointer_to_number_of_loads_msb: u16,
    pub pointer_to_number_of_loads_lsb: u16,
    pub pointer_to_user_defined_data_msb: u16,
    pub pointer_to_user_defined_data_lsb: u16,
    pub media_set_pn_length: u16,
    pub media_set_pn: Seq<u16>,
    pub media_sequence_number_x: u8,
    pub number_of_media_set_members_y: u8,
    pub number_of_loads: u16,
    pub loads: Seq<LspModel>,
    pub user_defined_data: Option<Seq<u16>>,
    pub file_crc: u16,
}

impl View for LoadsLum {
    type V = LoadsLumModel;

    open spec fn view(&self) -> LoadsLumModel {
        LoadsLumModel {
            file_length_msb: self.file_length_msb,
            file_length_lsb: self.file_length_lsb,
            media_file_format_version: self.media_file_format_version,
            pointer_to_media_set_pn_length_msb: self.pointer_to_media_set_pn_length_msb,
            pointer_to_media_set_pn_length_lsb: self.pointer_to_media_set_pn_length_lsb,
            pointer_to_number_of_loads_msb: self.pointer_to_number_of_loads_msb,
            pointer_to_number_of_loads_lsb: self.pointer_to_number_of_loads_lsb,
            pointer_to_user_defined_data_msb: self.pointer_to_user_defined_data_msb,
            pointer_to_user_defined_data_lsb: self.pointer_to_user_defined_data_lsb,
            media_set_pn_length: self.media_set_pn_length,
            media_set_pn: self.media_set_pn@,
            media_sequence_number_x: self.media_sequence_number_x,
            number_of_media_set_members_y: self.number_of_media_set_members_y,
            number_of_loads: self.number_of_loads,
            loads: views_of_lsp(self.loads@),
            user_defined_data: match self.user_defined_data {
                Some(ref u) => Some(u@),
                None => None,
            },
            file_crc: self.file_crc,
        }
    }
}

impl LoadsLumModel {
    /// The declared total record length, in 16-bit words.
    pub open spec fn total_length_words(self) -> u32 {
        spec_combine(self.file_length_msb, self.file_length_lsb)
    }

    /// The word offset of the media-set part-number length field.
    pub open spec fn media_set_pn_length_pointer(self) -> u32 {
        spec_combine(
            self.pointer_to_media_set_pn_length_msb,
            self.pointer_to_media_set_pn_length_lsb,
        )
    }

    /// The word offset of the load-count field.
    pub open spec fn number_of_loads_pointer(self) -> u32 {
        spec_combine(self.pointer_to_number_of_loads_msb, self.pointer_to_number_of_loads_lsb)
    }

    /// The word offset of the user-defined-data block; zero when the block
    /// is absent.
    pub open spec fn user_defined_data_pointer(self) -> u32 {
        spec_combine(self.pointer_to_user_defined_data_msb, self.pointer_to_user_defined_data_lsb)
    }

    /// Packed strings hold the word counts their character counts call for,
    /// the entry array holds exactly the declared number of well-formed
    /// entries, and user-defined data is present if and only if its pointer
    /// is nonzero, with its derived length.
    pub open spec fn wf(self) -> bool {
        &&& self.media_set_pn.len() == word_count(self.media_set_pn_length as int)
        &&& self.loads.len() == self.number_of_loads
        &&& forall|i: int| 0 <= i < self.loads.len() ==> (#[trigger] self.loads[i]).wf()
        &&& match self.user_defined_data {
            Some(u) => self.user_defined_data_pointer() != 0 && self.total_length_words()
                >= self.user_defined_data_pointer() + 1 && u.len() == word_count(
                self.total_length_words() - self.user_defined_data_pointer() - 1,
            ),
            None => self.user_defined_data_pointer() == 0,
        }
    }
}

/// Parses a list-of-loads header record at byte offset `pos`.
pub open spec fn parse_loads_lum(bs: Seq<u8>, pos: int) -> Result<(LoadsLumModel, int), DecodeError> {
    let pn_len = word_at(bs, pos + 18);
    let nw = word_count(pn_len as int);
    let p1 = pos + 20 + 2 * nw;
    let n_loads = word_at(bs, p1 + 2);
    if pos + 20 > bs.len() {
        Err(DecodeError::Truncated)
    } else if p1 + 4 > bs.len() {
        Err(DecodeError::Truncated)
    } else {
        match parse_list(lsp_parser(), bs, p1 + 4, n_loads as int) {
            Ok(p) => {
                let p2 = p.1;
                let udd_ptr = spec_combine(word_at(bs, pos + 14), word_at(bs, pos + 16));
                let total = spec_combine(word_at(bs, pos), word_at(bs, pos + 2));
                if udd_ptr != 0 {
                    if total < udd_ptr + 1 {
                        Err(DecodeError::LengthUnderflow)
                    } else {
                        let uw = word_count(total - udd_ptr - 1);
                        if p2 + 2 * uw + 2 > bs.len() {
                            Err(DecodeError::Truncated)
                        } else {
                            Ok(
                                (
                                    loads_lum_model(
                                        bs,
                                        pos,
                                        p.0,
                                        Some(words_at(bs, p2, uw)),
                                        word_at(bs, p2 + 2 * uw),
                                    ),
                                    p2 + 2 * uw + 2,
                                ),
                            )
                        }
                    }
                } else {
                    if p2 + 2 > bs.len() {
                        Err(DecodeError::Truncated)
                    } else {
                        Ok((loads_lum_model(bs, pos, p.0, None, word_at(bs, p2)), p2 + 2))
                    }
                }
            },
            Err(e) => Err(e),
        }
    }
}

/// The header value assembled from the fixed fields at `pos` plus the parsed
/// entries, user-defined data and trailing CRC.
pub open spec fn loads_lum_model(
    bs: Seq<u8>,
    pos: int,
    loads: Seq<LspModel>,
    user_defined_data: Option<Seq<u16>>,
    file_crc: u16,
) -> LoadsLumModel {
    let pn_len = word_at(bs, pos + 18);
    let nw = word_count(pn_len as int);
    let p1 = pos + 20 + 2 * nw;
    LoadsLumModel {
        file_length_msb: word_at(bs, pos),
        file_length_lsb: word_at(bs, pos + 2),
        media_file_format_version: word_at(bs, pos + 4),
        pointer_to_media_set_pn_length_msb: word_at(bs, pos + 6),
        pointer_to_media_set_pn_length_lsb: word_at(bs, pos + 8),
        pointer_to_number_of_loads_msb: word_at(bs, pos + 10),
        pointer_to_number_of_loads_lsb: word_at(bs, pos + 12),
        pointer_to_user_defined_data_msb: word_at(bs, pos + 14),
        pointer_to_user_defined_data_lsb: word_at(bs, pos + 16),
        media_set_pn_length: pn_len,
        media_set_pn: words_at(bs, pos + 20, nw),
        media_sequence_number_x: bs[p1],
        number_of_media_set_members_y: bs[p1 + 1],
        number_of_loads: word_at(bs, p1 + 2),
        loads,
        user_defined_data,
        file_crc,
    }
}

/// What decoding a whole buffer as a list-of-loads header yields.
pub open spec fn spec_decode_loads_lum(bs: Seq<u8>) -> Result<LoadsLumModel, DecodeError> {
    match parse_loads_lum(bs, 0) {
        Ok(p) => Ok(p.0),
        Err(e) => Err(e),
    }
}

/// The mathematical value of a decode result.
pub open spec fn view_loads_result(r: Result<LoadsLum, DecodeError>) -> Result<
    LoadsLumModel,
    DecodeError,
> {
    match r {
        Ok(h) => Ok(h@),
        Err(e) => Err(e),
    }
}

/// A parsed list-of-loads header is well formed.
pub proof fn lemma_parse_loads_lum_wf(bs: Seq<u8>, pos: int)
    requires
        0 <= pos,
        parse_loads_lum(bs, pos) is Ok,
    ensures
        parse_loads_lum(bs, pos)->Ok_0.0.wf(),
        pos < parse_loads_lum(bs, pos)->Ok_0.1 <= bs.len(),
{
    let wf_m = |l: LspModel| l.wf();
    assert forall|p: int| 0 <= p && (#[trigger] lsp_parser()(bs, p)) is Ok implies wf_m(
        lsp_parser()(bs, p)->Ok_0.0,
    ) && p < lsp_parser()(bs, p)->Ok_0.1 <= bs.len() by {
        lemma_parse_lsp_wf(bs, p);
    }
    let pn_len = word_at(bs, pos + 18);
    let nw = word_count(pn_len as int);
    let p1 = pos + 20 + 2 * nw;
    let n_loads = word_at(bs, p1 + 2);
    lemma_parse_list_wf(lsp_parser(), wf_m, bs, p1 + 4, n_loads as int);
}

/// A decodable list-of-loads record reads only bytes before its end offset:
/// truncating the buffer at or past the end changes nothing, and truncating
/// it earlier turns the parse into a failure.
pub proof fn lemma_parse_loads_lum_prefix(bs: Seq<u8>, pos: int, k: int)
    requires
        0 <= pos,
        0 <= k <= bs.len(),
        parse_loads_lum(bs, pos) is Ok,
    ensures
        ({
            let end = parse_loads_lum(bs, pos)->Ok_0.1;
            &&& pos <= end <= bs.len()
            &&& (end <= k ==> parse_loads_lum(bs.take(k), pos) == parse_loads_lum(bs, pos))
            &&& (pos <= k < end ==> parse_loads_lum(bs.take(k), pos) is Err)
        }),
{
    lemma_parse_lsp_local();
    let g = lsp_parser();
    let pn_len = word_at(bs, pos + 18);
    let nw = word_count(pn_len as int);
    let p1 = pos + 20 + 2 * nw;
    let n_loads = word_at(bs, p1 + 2);
    lemma_parse_list_prefix(g, bs, p1 + 4, n_loads as int, k);
    let p2 = parse_list(g, bs, p1 + 4, n_loads as int)->Ok_0.1;
    let udd_ptr = spec_combine(word_at(bs, pos + 14), word_at(bs, pos + 16));
    let total = spec_combine(word_at(bs, pos), word_at(bs, pos + 2));
    let uw = word_count(total - udd_ptr - 1);
    let end = parse_loads_lum(bs, pos)->Ok_0.1;
    if end <= k {
        assert forall|j: int| 0 <= j && j + 2 <= k implies #[trigger] word_at(bs.take(k), j)
            == word_at(bs, j) by {}
        assert(words_at(bs.take(k), pos + 20, nw) =~= words_at(bs, pos + 20, nw));
        assert(bs.take(k)[p1] == bs[p1]);
        assert(bs.take(k)[p1 + 1] == bs[p1 + 1]);
        assert(parse_list(g, bs.take(k), p1 + 4, n_loads as int) == parse_list(
            g,
            bs,
            p1 + 4,
            n_loads as int,
        ));
        if udd_ptr != 0 {
            assert(words_at(bs.take(k), p2, uw) =~= words_at(bs, p2, uw));
        }
        assert(parse_loads_lum(bs.take(k), pos) is Ok);
        assert(parse_loads_lum(bs.take(k), pos)->Ok_0.0 =~= parse_loads_lum(bs, pos)->Ok_0.0);
        assert(parse_loads_lum(bs.take(k), pos) == parse_loads_lum(bs, pos));
    } else if pos <= k < end {
        if pos + 20 <= k {
            assert(word_at(bs.take(k), pos + 18) == word_at(bs, pos + 18));
            if p1 + 4 <= k {
                assert(word_at(bs.take(k), p1 + 2) == word_at(bs, p1 + 2));
                if p2 <= k {
                    assert(parse_list(g, bs.take(k), p1 + 4, n_loads as int) == parse_list(
                        g,
                        bs,
                        p1 + 4,
                        n_loads as int,
                    ));
                    assert(word_at(bs.take(k), pos + 14) == word_at(bs, pos + 14));
                    assert(word_at(bs.take(k), pos + 16) == word_at(bs, pos + 16));
                    assert(word_at(bs.take(k), pos) == word_at(bs, pos));
                    assert(word_at(bs.take(k), pos + 2) == word_at(bs, pos + 2));
                } else {
                    assert(parse_list(g, bs.take(k), p1 + 4, n_loads as int) is Err);
                }
            }
        }
    }
}

/// Decoding is deterministic and side-effect-free: any two decodes of the
/// same buffer yield the same value, successes and failures alike.
pub proof fn lemma_decode_loads_lum_deterministic(
    r1: Result<LoadsLum, DecodeError>,
    r2: Result<LoadsLum, DecodeError>,
    bs: Seq<u8>,
)
    requires
        view_loads_result(r1) == spec_decode_loads_lum(bs),
        view_loads_result(r2) == spec_decode_loads_lum(bs),
    ensures
        view_loads_result(r1) == view_loads_result(r2),
{
}

/// Truncating a decodable buffer anywhere before the decoded record's end
/// turns the decode into a structural failure, never a silent short read.
pub proof fn lemma_truncated_loads_lum_fails(bs: Seq<u8>, k: int)
    requires
        spec_decode_loads_lum(bs) is Ok,
        0 <= k < parse_loads_lum(bs, 0)->Ok_0.1,
    ensures
        spec_decode_loads_lum(bs.take(k)) is Err,
{
    lemma_parse_loads_lum_prefix(bs, 0, k);
}

impl LoadsLum {
    /// Decodes a list-of-loads header from the start of a fully buffered
    /// record.
    ///
    /// Fails with `Truncated` when the buffer ends before a fixed or
    /// computed-length field, and with `LengthUnderflow` when the declared
    /// total length is smaller than the user-defined-data pointer plus one;
    /// otherwise the decoded header is exactly the parse of the buffer, and
    /// is well formed.
    #[verifier::loop_isolation(false)]
    #[verifier::rlimit(100)]
    #[verifier::spinoff_prover]
    pub fn decode(data: &[u8]) -> (res: Result<LoadsLum, DecodeError>)
        ensures
            view_loads_result(res) == spec_decode_loads_lum(data@),
            res matches Ok(h) ==> h@.wf(),
    {
        let ghost bs = data@;
        let mut reader = Reader::new(data);
        let r = &mut reader;
        let file_length_msb = match r.read_u16() {
            Ok(v) => v,
            Err(e) => return Err(e),
        };
        let file_length_lsb = match r.read_u16() {
            Ok(v) => v,
            Err(e) => return Err(e),
        };
        let media_file_format_version = match r.read_u16() {
            Ok(v) => v,
            Err(e) => return Err(e),
        };
        let pointer_to_media_set_pn_length_msb = match r.read_u16() {
            Ok(v) => v,
            Err(e) => return Err(e),
        };
        let pointer_to_media_set_pn_length_lsb = match r.read_u16() {
            Ok(v) => v,
            Err(e) => return Err(e),
        };
        let pointer_to_number_of_loads_msb = match r.read_u16() {
            Ok(v) => v,
            Err(e) => return Err(e),
        };
        let pointer_to_number_of_loads_lsb = match r.read_u16() {
            Ok(v) => v,
            Err(e) => return Err(e),
        };
        let pointer_to_user_defined_data_msb = match r.read_u16() {
            Ok(v) => v,
            Err(e) => return Err(e),
        };
        let pointer_to_user_defined_data_lsb = match r.read_u16() {
            Ok(v) => v,
            Err(e) => return Err(e),
        };
        let media_set_pn_length = match r.read_u16() {
            Ok(v) => v,
            Err(e) => return Err(e),
        };
        let nw = media_set_pn_length / 2 + media_set_pn_length % 2;
        let media_set_pn = match r.read_words(nw as usize) {
            Ok(v) => v,
            Err(e) => return Err(e),
        };
        let media_sequence_number_x = match r.read_u8() {
            Ok(v) => v,
            Err(e) => return Err(e),
        };
        let number_of_media_set_members_y = match r.read_u8() {
            Ok(v) => v,
            Err(e) => return Err(e),
        };
        let number_of_loads = match r.read_u16() {
            Ok(v) => v,
            Err(e) => return Err(e),
        };
        let ghost f = lsp_parser();
        let ghost plist = r.pos as int;
        let n = number_of_loads as usize;
        let mut loads: Vec<Lsp> = Vec::new();
        let mut i: usize = 0;
        while i < n
            invariant
                i <= n,
                r.wf(),
                r.data@ == bs,
                loads@.len() == i,
                prepend_parsed(views_of_lsp(loads@), parse_list(f, bs, r.pos as int, n - i))
                    == parse_list(f, bs, plist, n as int),
            decreases n - i,
        {
            let ghost q = r.pos as int;
            match Lsp::decode(r) {
                Ok(l) => {
                    proof {
                        assert(lsp_parser()(bs, q) == parse_lsp(bs, q));
                        lemma_prepend_parsed_push(
                            views_of_lsp(loads@),
                            l@,
                            parse_list(f, bs, r.pos as int, n - i - 1),
                        );
                        assert(views_of_lsp(loads@.push(l)) =~= views_of_lsp(loads@).push(l@));
                    }
                    loads.push(l);
                    i += 1;
                },
                Err(e) => {
                    proof {
                        assert(lsp_parser()(bs, q) == parse_lsp(bs, q));
                    }
                    return Err(e);
                },
            }
        }
        proof {
            assert(views_of_lsp(loads@) + Seq::<LspModel>::empty() =~= views_of_lsp(loads@));
            assert(parse_list(f, bs, plist, n as int) == Ok::<_, DecodeError>(
                (views_of_lsp(loads@), r.pos as int),
            ));
        }
        let udd_ptr = combine_words(
            pointer_to_user_defined_data_msb,
            pointer_to_user_defined_data_lsb,
        );
        let (user_defined_data, file_crc) = if udd_ptr != 0 {
            let total = combine_words(file_length_msb, file_length_lsb);
            if total <= udd_ptr {
                return Err(DecodeError::LengthUnderflow);
            }
            let diff = total - udd_ptr - 1;
            let uw = diff / 2 + diff % 2;
            let words = match r.read_words(uw as usize) {
                Ok(v) => v,
                Err(e) => return Err(e),
            };
            let crc = match r.read_u16() {
                Ok(v) => v,
                Err(e) => return Err(e),
            };
            (Some(words), crc)
        } else {
            let crc = match r.read_u16() {
                Ok(v) => v,
                Err(e) => return Err(e),
            };
            (None, crc)
        };
        let h = LoadsLum {
            file_length_msb,
            file_length_lsb,
            media_file_format_version,
            pointer_to_media_set_pn_length_msb,
            pointer_to_media_set_pn_length_lsb,
            pointer_to_number_of_loads_msb,
            pointer_to_number_of_loads_lsb,
            pointer_to_user_defined_data_msb,
            pointer_to_user_defined_data_lsb,
            media_set_pn_length,
            media_set_pn,
            media_sequence_number_x,
            number_of_media_set_members_y,
            number_of_loads,
            loads,
            user_defined_data,
            file_crc,
        };
        proof {
            assert(parse_loads_lum(bs, 0) == Ok::<_, DecodeError>((h@, r.pos as int)));
            lemma_parse_loads_lum_wf(bs, 0);
        }
        Ok(h)
    }

    /// The semantic class the header's format version selects, if any.
    pub fn get_file_type(&self) -> (r: Option<FileClass>)
        ensures
            r == spec_classify(self@.media_file_format_version),
    {
        FileClass::get_file_type(self.media_file_format_version)
    }

    /// The declared total record length, in 16-bit words.
    pub fn get_file_length(&self) -> (r: u32)
        ensures
            r == self@.total_length_words(),
    {
        combine_words(self.file_length_msb, self.file_length_lsb)
    }

    /// The word offset of the media-set part-number length field.
    pub fn get_pointer_to_media_set_pn_length(&self) -> (r: u32)
        ensures
            r == self@.media_set_pn_length_pointer(),
    {
        combine_words(
            self.pointer_to_media_set_pn_length_msb,
            self.pointer_to_media_set_pn_length_lsb,
        )
    }

    /// The word offset of the load-count field.
    pub fn get_pointer_to_number_of_loads(&self) -> (r: u32)
        ensures
            r == self@.number_of_loads_pointer(),
    {
        combine_words(self.pointer_to_number_of_loads_msb, self.pointer_to_number_of_loads_lsb)
    }

    /// The word offset of the user-defined-data block; zero when the block
    /// is absent.
    pub fn get_pointer_to_user_defined_data(&self) -> (r: u32)
        ensures
            r == self@.user_defined_data_pointer(),
    {
        combine_words(
            self.pointer_to_user_defined_data_msb,
            self.pointer_to_user_defined_data_lsb,
        )
    }

    /// The media-set part number, decoded from its packed form; an odd
    /// length drops the final padding byte.
    pub fn get_media_set_pn(&self) -> (r: String)
        requires
            self@.wf(),
        ensures
            r@ == packed_text(self@.media_set_pn, self@.media_set_pn_length as int),
            is_ascii_bytes(
                packed_string_bytes(self@.media_set_pn, self@.media_set_pn_length as int),
            ) ==> r@ == ascii_chars_of(
                packed_string_bytes(self@.media_set_pn, self@.media_set_pn_length as int),
            ),
    {
        vec16_to_string(self.media_set_pn.as_slice(), self.media_set_pn_length as usize)
    }
}

/// The report for a whole list-of-loads header: the byte length, the class
/// line, one labelled line per scalar field, one block per load entry in
/// on-disk order, the user-defined data and the trailing CRC in lowercase
/// hexadecimal.
pub open spec fn spec_report_loads_lum(m: LoadsLumModel) -> Seq<char> {
    spec_dec(2 * m.total_length_words() as int) + " Bytes\n"@ + spec_class_string(
        m.media_file_format_version,
    ) + "\n"@ + spec_dec(m.media_set_pn_length_pointer() as int) + " | "@ + spec_dec(
        m.number_of_loads_pointer() as int,
    ) + " | "@ + spec_dec(m.user_defined_data_pointer() as int) + " Offsets\n"@ + spec_dec(
        m.media_set_pn_length as int,
    ) + " Chars in Media Set PN\n"@ + packed_text(m.media_set_pn, m.media_set_pn_length as int)
        + " Media Set PN\n"@ + spec_dec(m.media_sequence_number_x as int) + " Media number\n"@
        + spec_dec(m.number_of_media_set_members_y as int) + " Total Media sets\n"@ + spec_dec(
        m.number_of_loads as int,
    ) + " Total loads\n"@ + concat_reports(lsp_report_fn(), m.loads) + spec_user_data(
        m.user_defined_data,
    ) + " User Data\n0x"@ + spec_hex(m.file_crc as int) + " CRC\n"@
}

impl LoadsLum {
    /// The class line for the header's format version: the class label, or
    /// the raw version with a fallback note when no class matches.
    pub fn get_file_type_string(&self) -> (r: String)
        ensures
            r@ == spec_class_string(self@.media_file_format_version),
    {
        class_string(self.media_file_format_version)
    }

    /// Renders the whole header's report.
    #[verifier::loop_isolation(false)]
    pub fn report(&self) -> (r: String)
        requires
            self@.wf(),
        ensures
            r@ == spec_report_loads_lum(self@),
    {
        let mut out = String::new();
        append_dec(&mut out, (self.get_file_length() as u64) * 2);
        out.append(" Bytes\n");
        let class = self.get_file_type_string();
        out.append(class.as_str());
        out.append("\n");
        append_dec(&mut out, self.get_pointer_to_media_set_pn_length() as u64);
        out.append(" | ");
        append_dec(&mut out, self.get_pointer_to_number_of_loads() as u64);
        out.append(" | ");
        append_dec(&mut out, self.get_pointer_to_user_defined_data() as u64);
        out.append(" Offsets\n");
        append_dec(&mut out, self.media_set_pn_length as u64);
        out.append(" Chars in Media Set PN\n");
        let pn = self.get_media_set_pn();
        out.append(pn.as_str());
        out.append(" Media Set PN\n");
        append_dec(&mut out, self.media_sequence_number_x as u64);
        out.append(" Media number\n");
        append_dec(&mut out, self.number_of_media_set_members_y as u64);
        out.append(" Total Media sets\n");
        append_dec(&mut out, self.number_of_loads as u64);
        out.append(" Total loads\n");
        let ghost prefix = out@;
        let ghost views = views_of_lsp(self.loads@);
        let n = self.loads.len();
        let mut i: usize = 0;
        while i < n
            invariant
                i <= n,
                out@ == prefix + concat_reports(lsp_report_fn(), views.take(i as int)),
            decreases n - i,
        {
            proof {
                assert(views[i as int] == self.loads@[i as int]@);
            }
            let block = self.loads[i].report();
            out.append(block.as_str());
            proof {
                lemma_concat_reports_push(lsp_report_fn(), views.take(i as int), views[i as int]);
                assert(views.take(i + 1) =~= views.take(i as int).push(views[i as int]));
                assert(lsp_report_fn()(views[i as int]) == spec_report_lsp(views[i as int]));
            }
            i += 1;
        }
        proof {
            assert(views.take(n as int) =~= views);
        }
        append_user_data(&mut out, &self.user_defined_data);
        out.append(" User Data\n0x");
        append_hex(&mut out, self.file_crc as u64);
        out.append(" CRC\n");
        proof {
            assert(out@ =~= spec_report_loads_lum(self@));
        }
        out
    }
}

} // verus!
