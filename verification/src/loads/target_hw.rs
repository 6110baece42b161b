//! The target-hardware-ID sub-entry of a load-manifest entry.

use vstd::prelude::*;

use crate::error::DecodeError;
use crate::parse::local_parser;
use crate::reader::Reader;
use crate::render::{append_dec, spec_dec};
use crate::utils::{
    ascii_chars_of, is_ascii_bytes, packed_string_bytes, packed_text, vec16_to_string, word_at,
    word_count, words_at,
};

verus! {

/// One target-hardware identifier, as a packed string with its character
/// count.
#[derive(Debug, Clone, PartialEq, Eq)]
pub struct TargetHW {
    pub target_hw_id_length: u16,
    pub target_hw_id: Vec<u16>,
}

/// The mathematical value of a [`TargetHW`].
#[verifier::ext_equal]
pub struct TargetHwModel {
    pub target_hw_id_length: u16,
    pub target_hw_id: Seq<u16>,
}

impl View for TargetHW {
    type V = TargetHwModel;

    open spec fn view(&self) -> TargetHwModel {
        TargetHwModel {
            target_hw_id_length: self.target_hw_id_length,
            target_hw_id: self.target_hw_id@,
        }
    }
}

impl TargetHwModel {
    /// The packed string holds exactly the word count its character count
    /// calls for.
    pub open spec fn wf(self) -> bool {
        self.target_hw_id.len() == word_count(self.target_hw_id_length as int)
    }
}

/// Parses one target-hardware sub-entry at byte offset `pos`.
pub open spec fn parse_target_hw(bs: Seq<u8>, pos: int) -> Result<(TargetHwModel, int), DecodeError> {
    let id_len = word_at(bs, pos);
    let nw = word_count(id_len as int);
    let p1 = pos + 2 + 2 * nw;
    if pos + 2 > bs.len() {
        Err(DecodeError::Truncated)
    } else if p1 > bs.len() {
        Err(DecodeError::Truncated)
    } else {
        Ok(
            (
                TargetHwModel {
                    target_hw_id_length: id_len,
                    target_hw_id: words_at(bs, pos + 2, nw),
                },
                p1,
            ),
        )
    }
}

/// The record parser for target-hardware sub-entries, as a value.
pub open spec fn target_hw_parser() -> spec_fn(Seq<u8>, int) -> Result<
    (TargetHwModel, int),
    DecodeError,
> {
    |bs: Seq<u8>, pos: int| parse_target_hw(bs, pos)
}

/// A parsed target-hardware sub-entry is well formed and ends within the
/// buffer, no earlier than it began.
pub proof fn lemma_parse_target_hw_wf(bs: Seq<u8>, pos: int)
    requires
        0 <= pos,
        parse_target_hw(bs, pos) is Ok,
    ensures
        parse_target_hw(bs, pos)->Ok_0.0.wf(),
        pos < parse_target_hw(bs, pos)->Ok_0.1 <= bs.len(),
{
}

/// The target-hardware record parser reads only bytes before its end
/// offset: truncating the buffer at or past the end changes nothing, and
/// truncating it earlier turns the parse into a failure.
pub proof fn lemma_parse_target_hw_local()
    ensures
        local_parser(target_hw_parser()),
{
    let f = target_hw_parser();
    assert forall|bs: Seq<u8>, pos: int, k: int|
        0 <= pos && 0 <= k <= bs.len() && f(bs, pos) is Ok implies {
        let end = f(bs, pos)->Ok_0.1;
        &&& pos <= end <= bs.len()
        &&& (end <= k ==> #[trigger] f(bs.take(k), pos) == f(bs, pos))
        &&& (pos <= k < end ==> f(bs.take(k), pos) is Err)
    } by {
        assert(f(bs, pos) == parse_target_hw(bs, pos));
        assert(f(bs.take(k), pos) == parse_target_hw(bs.take(k), pos));
        let end = parse_target_hw(bs, pos)->Ok_0.1;
        let id_len = word_at(bs, pos);
        let nw = word_count(id_len as int);
        if end <= k {
            assert(word_at(bs.take(k), pos) == word_at(bs, pos));
            assert(words_at(bs.take(k), pos + 2, nw) =~= words_at(bs, pos + 2, nw));
            assert(parse_target_hw(bs.take(k), pos) is Ok);
            assert(parse_target_hw(bs.take(k), pos)->Ok_0.0 =~= parse_target_hw(bs, pos)->Ok_0.0);
            assert(parse_target_hw(bs.take(k), pos) == parse_target_hw(bs, pos));
        } else if pos <= k < end {
            if pos + 2 <= k {
                assert(word_at(bs.take(k), pos) == word_at(bs, pos));
            }
        }
    };
}

impl TargetHW {
    /// Decodes one target-hardware sub-entry at the reader's position.
    pub fn decode(r: &mut Reader<'_>) -> (res: Result<TargetHW, DecodeError>)
        requires
            old(r).wf(),
        ensures
            final(r).wf(),
            final(r).data@ == old(r).data@,
            match res {
                Ok(t) => parse_target_hw(old(r).data@, old(r).pos as int) == Ok::<
                    _,
                    DecodeError,
                >((t@, final(r).pos as int)),
                Err(e) => parse_target_hw(old(r).data@, old(r).pos as int) == Err::<
                    (TargetHwModel, int),
                    _,
                >(e),
            },
    {
        let target_hw_id_length = match r.read_u16() {
            Ok(v) => v,
            Err(e) => return Err(e),
        };
        let nw = target_hw_id_length / 2 + target_hw_id_length % 2;
        let target_hw_id = match r.read_words(nw as usize) {
            Ok(v) => v,
            Err(e) => return Err(e),
        };
        Ok(TargetHW { target_hw_id_length, target_hw_id })
    }

    /// The target-hardware identifier, decoded from its packed form.
    pub fn get_target_hw_id(&self) -> (r: String)
        requires
            self@.wf(),
        ensures
            r@ == packed_text(self@.target_hw_id, self@.target_hw_id_length as int),
            is_ascii_bytes(
                packed_string_bytes(self@.target_hw_id, self@.target_hw_id_length as int),
            ) ==> r@ == ascii_chars_of(
                packed_string_bytes(self@.target_hw_id, self@.target_hw_id_length as int),
            ),
    {
        vec16_to_string(self.target_hw_id.as_slice(), self.target_hw_id_length as usize)
    }
}

/// The report block for one target-hardware sub-entry.
pub open spec fn spec_report_target_hw(m: TargetHwModel) -> Seq<char> {
    "\t\t"@ + spec_dec(m.target_hw_id_length as int) + " Chars in Target HW ID\n\t\t"@
        + packed_text(m.target_hw_id, m.target_hw_id_length as int) + " Target HW ID\n\n"@
}

/// The record renderer for target-hardware sub-entries, as a value.
pub open spec fn target_hw_report_fn() -> spec_fn(TargetHwModel) -> Seq<char> {
    |m: TargetHwModel| spec_report_target_hw(m)
}

impl TargetHW {
    /// Renders the sub-entry's report block.
    pub fn report(&self) -> (r: String)
        requires
            self@.wf(),
        ensures
            r@ == spec_report_target_hw(self@),
    {
        let mut out = String::new();
        out.append("\t\t");
        append_dec(&mut out, self.target_hw_id_length as u64);
        out.append(" Chars in Target HW ID\n\t\t");
        let id = self.get_target_hw_id();
        out.append(id.as_str());
        out.append(" Target HW ID\n\n");
        proof {
            assert(out@ =~= spec_report_target_hw(self@));
        }
        out
    }
}

} // verus!
