//! The lookup side of the protocol: the URL a disc's checksums live
//! under, the decoding of the binary response records, and the meaning
//! of the transport status a fetch comes back with.

use vstd::prelude::*;
use vstd::string::StringExecFns;

use crate::offset::DiscInfo;
use crate::ArError;

verus! {

/// One submitter-aggregated result for one track position within one
/// pressing. The wire format carries a third, reserved field, which is
/// consumed and ignored.
#[derive(Clone, Copy, Debug, PartialEq, Eq, Structural)]
pub struct TrackResult {
    pub confidence: u8,
    pub crc: u32,
}

/// The characters of one hexadecimal (or decimal) digit.
pub open spec fn spec_digit_str(d: int) -> Seq<char> {
    if d == 0 {
        "0"@
    } else if d == 1 {
        "1"@
    } else if d == 2 {
        "2"@
    } else if d == 3 {
        "3"@
    } else if d == 4 {
        "4"@
    } else if d == 5 {
        "5"@
    } else if d == 6 {
        "6"@
    } else if d == 7 {
        "7"@
    } else if d == 8 {
        "8"@
    } else if d == 9 {
        "9"@
    } else if d == 10 {
        "a"@
    } else if d == 11 {
        "b"@
    } else if d == 12 {
        "c"@
    } else if d == 13 {
        "d"@
    } else if d == 14 {
        "e"@
    } else {
        "f"@
    }
}

/// The lowest `digits` hexadecimal digits of `x`, most significant
/// first.
pub open spec fn spec_hex_seq(x: int, digits: int) -> Seq<char>
    decreases digits,
{
    if digits <= 0 {
        Seq::empty()
    } else {
        spec_hex_seq(x / 16, digits - 1) + spec_digit_str(x % 16)
    }
}

/// The lowest `digits` decimal digits of `x`, most significant first.
pub open spec fn spec_dec_seq(x: int, digits: int) -> Seq<char>
    decreases digits,
{
    if digits <= 0 {
        Seq::empty()
    } else {
        spec_dec_seq(x / 10, digits - 1) + spec_digit_str(x % 10)
    }
}

/// The URL a disc's lookup record lives under: three path levels drawn
/// from the low nibbles of `id_1`, then a file name holding the track
/// count and all three ids.
pub open spec fn spec_ar_bin_url(d: DiscInfo) -> Seq<char> {
    "http://www.accuraterip.com/accuraterip/"@ + spec_hex_seq((d.id_1 as int) % 16, 1) + "/"@
        + spec_hex_seq(((d.id_1 as int) / 16) % 16, 1) + "/"@ + spec_hex_seq(((d.id_1 as int) / 256) % 16, 1)
        + "/dBAR-"@ + spec_dec_seq(d.num_tracks as int, 3) + "-"@ + spec_hex_seq(d.id_1 as int, 8)
        + "-"@ + spec_hex_seq(d.id_2 as int, 8) + "-"@ + spec_hex_seq(d.cddb_id as int, 8)
        + ".bin"@
}

/// Appends one digit character.
fn append_digit(s: &mut String, d: u32)
    requires
        d < 16,
    ensures
        final(s)@ == old(s)@ + spec_digit_str(d as int),
{
    if d == 0 {
        s.append("0")
    } else if d == 1 {
        s.append("1")
    } else if d == 2 {
        s.append("2")
    } else if d == 3 {
        s.append("3")
    } else if d == 4 {
        s.append("4")
    } else if d == 5 {
        s.append("5")
    } else if d == 6 {
        s.append("6")
    } else if d == 7 {
        s.append("7")
    } else if d == 8 {
        s.append("8")
    } else if d == 9 {
        s.append("9")
    } else if d == 10 {
        s.append("a")
    } else if d == 11 {
        s.append("b")
    } else if d == 12 {
        s.append("c")
    } else if d == 13 {
        s.append("d")
    } else if d == 14 {
        s.append("e")
    } else {
        s.append("f")
    }
}

/// Appends the lowest `digits` hexadecimal digits of `x`, most
/// significant first.
fn append_hex(s: &mut String, x: u32, digits: u8)
    ensures
        final(s)@ == old(s)@ + spec_hex_seq(x as int, digits as int),
    decreases digits,
{
    if digits == 0 {
        proof {
            assert(old(s)@ + spec_hex_seq(x as int, 0) =~= old(s)@);
        }
    } else {
        append_hex(s, x / 16, digits - 1);
        append_digit(s, x % 16);
        proof {
            assert(old(s)@ + (spec_hex_seq(x as int / 16, digits - 1) + spec_digit_str(
                x as int % 16,
            )) =~= (old(s)@ + spec_hex_seq(x as int / 16, digits - 1)) + spec_digit_str(
                x as int % 16,
            ));
        }
    }
}

/// Appends the lowest `digits` decimal digits of `x`, most significant
/// first.
fn append_dec(s: &mut String, x: u32, digits: u8)
    ensures
        final(s)@ == old(s)@ + spec_dec_seq(x as int, digits as int),
    decreases digits,
{
    if digits == 0 {
        proof {
            assert(old(s)@ + spec_dec_seq(x as int, 0) =~= old(s)@);
        }
    } else {
        append_dec(s, x / 10, digits - 1);
        append_digit(s, x % 10);
        proof {
            assert(old(s)@ + (spec_dec_seq(x as int / 10, digits - 1) + spec_digit_str(
                x as int % 10,
            )) =~= (old(s)@ + spec_dec_seq(x as int / 10, digits - 1)) + spec_digit_str(
                x as int % 10,
            ));
        }
    }
}

/// Builds the database URL for a disc: its `id_1`'s three low nibbles
/// as path levels, then `dBAR-<tracks, 3 decimal digits>-<id_1>-<id_2>-
/// <cddb_id>.bin` with each id as 8 hexadecimal digits.
pub fn create_ar_bin_url(disc_info: &DiscInfo) -> (r: String)
    ensures
        r@ == spec_ar_bin_url(*disc_info),
{
    let mut s = String::new();
    s.append("http://www.accuraterip.com/accuraterip/");
    append_hex(&mut s, disc_info.id_1 % 16, 1);
    s.append("/");
    append_hex(&mut s, (disc_info.id_1 / 16) % 16, 1);
    s.append("/");
    append_hex(&mut s, (disc_info.id_1 / 256) % 16, 1);
    s.append("/dBAR-");
    append_dec(&mut s, disc_info.num_tracks as u32, 3);
    s.append("-");
    append_hex(&mut s, disc_info.id_1, 8);
    s.append("-");
    append_hex(&mut s, disc_info.id_2, 8);
    s.append("-");
    append_hex(&mut s, disc_info.cddb_id, 8);
    s.append(".bin");
    proof {
        assert(s@ =~= spec_ar_bin_url(*disc_info));
    }
    s
}

/// The value of the 4-byte little-endian integer at byte `pos` of `b`.
pub open spec fn le32_at(b: Seq<u8>, pos: int) -> int
    recommends
        0 <= pos,
        pos + 4 <= b.len(),
{
    b[pos] + 0x100 * b[pos + 1] + 0x1_0000 * b[pos + 2] + 0x100_0000 * b[pos + 3]
}

/// The first `count` track entries starting at byte `pos`: each entry
/// is 9 bytes, a confidence byte, a checksum word, and a reserved word
/// that is ignored.
pub open spec fn spec_track_results(b: Seq<u8>, pos: int, count: int) -> Seq<TrackResult>
    recommends
        0 <= pos,
        pos + 9 * count <= b.len(),
    decreases count,
{
    if count <= 0 {
        Seq::empty()
    } else {
        spec_track_results(b, pos, count - 1).push(
            TrackResult {
                confidence: b[pos + 9 * (count - 1)],
                crc: le32_at(b, pos + 9 * (count - 1) + 1) as u32,
            },
        )
    }
}

/// Decodes the records of a lookup buffer from byte `pos` on: each
/// record is a 13-byte header (track count and the three disc ids)
/// followed by 9 bytes per track, and records repeat until the buffer
/// is exhausted. `None` when the buffer ends inside a record.
pub open spec fn spec_parse_records(b: Seq<u8>, pos: int) -> Option<
    Seq<(DiscInfo, Seq<TrackResult>)>,
>
    recommends
        0 <= pos <= b.len(),
    decreases b.len() - pos,
{
    if pos == b.len() {
        Some(Seq::empty())
    } else if pos + 13 > b.len() {
        None
    } else {
        let nt = b[pos] as int;
        if pos + 13 + 9 * nt > b.len() {
            None
        } else {
            let disc = DiscInfo {
                num_tracks: b[pos],
                id_1: le32_at(b, pos + 1) as u32,
                id_2: le32_at(b, pos + 5) as u32,
                cddb_id: le32_at(b, pos + 9) as u32,
            };
            let tracks = spec_track_results(b, pos + 13, nt);
            match spec_parse_records(b, pos + 13 + 9 * nt) {
                Some(rest) => Some(seq![(disc, tracks)] + rest),
                None => None,
            }
        }
    }
}

/// The decoded pressings, with each track list taken as a sequence.
pub open spec fn pressings_view(v: Seq<(DiscInfo, Vec<TrackResult>)>) -> Seq<
    (DiscInfo, Seq<TrackResult>),
> {
    Seq::new(v.len(), |i: int| (v[i].0, v[i].1@))
}

/// Every pressing a well-formed buffer decodes to carries exactly as
/// many track entries as its header declares.
pub proof fn lemma_parsed_track_counts(b: Seq<u8>, pos: int)
    requires
        0 <= pos <= b.len(),
        spec_parse_records(b, pos) is Some,
    ensures
        forall|i: int|
            0 <= i < spec_parse_records(b, pos).unwrap().len()
                ==> #[trigger] spec_parse_records(b, pos).unwrap()[i].0.num_tracks as int
                == spec_parse_records(b, pos).unwrap()[i].1.len(),
    decreases b.len() - pos,
{
    if pos == b.len() {
    } else {
        let nt = b[pos] as int;
        lemma_track_results_len(b, pos + 13, nt);
        lemma_parsed_track_counts(b, pos + 13 + 9 * nt);
    }
}

/// A decoded track list has as many entries as were asked for.
proof fn lemma_track_results_len(b: Seq<u8>, pos: int, count: int)
    requires
        count >= 0,
    ensures
        spec_track_results(b, pos, count).len() == count,
    decreases count,
{
    if count > 0 {
        lemma_track_results_len(b, pos, count - 1);
    }
}

/// Reads the 4-byte little-endian integer at byte `pos`.
fn read_u32_le(data: &[u8], pos: usize) -> (r: u32)
    requires
        pos + 4 <= data@.len(),
    ensures
        r == le32_at(data@, pos as int),
{
    data[pos] as u32 + 0x100 * data[pos + 1] as u32 + 0x1_0000 * data[pos + 2] as u32 + 0x100_0000
        * data[pos + 3] as u32
}

/// Decodes a lookup buffer into its pressings: zero or more records,
/// each a disc identity and one result per track in physical track
/// order. Fails with [`ArError::TruncatedData`] if and only if the
/// buffer ends inside a declared record; a partial record is never
/// returned.
pub fn unpack_ar_bin(ar_bin_data: &[u8]) -> (r: Result<Vec<(DiscInfo, Vec<TrackResult>)>, ArError>)
    ensures
        match spec_parse_records(ar_bin_data@, 0) {
            Some(recs) => r is Ok && pressings_view(r.unwrap()@) == recs,
            None => r == Err::<Vec<(DiscInfo, Vec<TrackResult>)>, ArError>(ArError::TruncatedData),
        },
        r is Ok ==> forall|i: int|
            0 <= i < r.unwrap()@.len() ==> (#[trigger] r.unwrap()@[i].0.num_tracks) as int
                == r.unwrap()@[i].1@.len(),
{
    let ghost b = ar_bin_data@;
    let len = ar_bin_data.len();
    let mut pos: usize = 0;
    let mut results: Vec<(DiscInfo, Vec<TrackResult>)> = Vec::new();

    while pos < len
        invariant
            ar_bin_data@ == b,
            len == b.len(),
            0 <= pos <= len,
            match spec_parse_records(b, pos as int) {
                Some(rest) => spec_parse_records(b, 0) == Some(
                    pressings_view(results@) + rest,
                ),
                None => spec_parse_records(b, 0) is None,
            },
        decreases len - pos,
    {
        let remaining = len - pos;
        if remaining < 13 {
            return Err(ArError::TruncatedData);
        }

        let num_tracks = ar_bin_data[pos];
        let id_1 = read_u32_le(ar_bin_data, pos + 1);
        let id_2 = read_u32_le(ar_bin_data, pos + 5);
        let cddb_id = read_u32_le(ar_bin_data, pos + 9);
        let body_len: usize = 9 * (num_tracks as usize);
        if body_len > remaining - 13 {
            return Err(ArError::TruncatedData);
        }

        let disc = DiscInfo { id_1, id_2, cddb_id, num_tracks };
        let base = pos + 13;
        let mut tracks: Vec<TrackResult> = Vec::new();
        let mut k: usize = 0;

        while k < num_tracks as usize
            invariant
                ar_bin_data@ == b,
                len == b.len(),
                0 <= k <= num_tracks as usize,
                base == pos + 13,
                pos + 13 + 9 * (num_tracks as int) <= len,
                tracks@ == spec_track_results(b, base as int, k as int),
            decreases num_tracks as usize - k,
        {
            let tpos = base + 9 * k;
            let confidence = ar_bin_data[tpos];
            let crc = read_u32_le(ar_bin_data, tpos + 1);
            tracks.push(TrackResult { confidence, crc });
            k = k + 1;
        }

        let ghost old_results = results@;
        let ghost old_pos = pos as int;
        results.push((disc, tracks));
        pos = base + body_len;

        proof {
            let rec = (disc, spec_track_results(b, old_pos + 13, num_tracks as int));
            assert(pressings_view(results@) =~= pressings_view(old_results).push(rec));
            match spec_parse_records(b, pos as int) {
                Some(rest) => {
                    assert(spec_parse_records(b, old_pos) == Some(seq![rec] + rest));
                    assert(pressings_view(old_results) + (seq![rec] + rest) =~= pressings_view(
                        results@,
                    ) + rest);
                },
                None => {
                    assert(spec_parse_records(b, old_pos) is None);
                },
            }
        }
    }

    proof {
        assert(spec_parse_records(b, pos as int) == Some(Seq::<(DiscInfo, Seq<TrackResult>)>::empty()));
        assert(pressings_view(results@) + Seq::<(DiscInfo, Seq<TrackResult>)>::empty()
            =~= pressings_view(results@));
        lemma_parsed_track_counts(b, 0);
        let recs = spec_parse_records(b, 0).unwrap();
        assert forall|i: int| 0 <= i < results@.len() implies (#[trigger] results@[i].0.num_tracks)
            as int == results@[i].1@.len() by {
            assert(recs == pressings_view(results@));
            assert(recs[i] == (results@[i].0, results@[i].1@));
            assert(spec_parse_records(b, 0).unwrap()[i].0.num_tracks as int == spec_parse_records(
                b,
                0,
            ).unwrap()[i].1.len());
        }
    }

    Ok(results)
}

/// How a fetch of the lookup record ended, judged from its HTTP status:
/// only `200` carries a record, `404` means the disc is absent from the
/// database, and anything else is a transport failure.
pub fn classify_fetch_status(status: u16) -> (r: Result<(), ArError>)
    ensures
        status == 200 ==> r == Ok::<(), ArError>(()),
        status == 404 ==> r == Err::<(), ArError>(ArError::NotFound),
        status != 200 && status != 404 ==> r == Err::<(), ArError>(ArError::TransportError),
{
    if status == 200 {
        Ok(())
    } else if status == 404 {
        Err(ArError::NotFound)
    } else {
        Err(ArError::TransportError)
    }
}

} // verus!
