//! Decoding the tar archive format: 512-byte header blocks, octal or
//! base-256 size fields, and the data blocks that follow each header. A
//! decoded entry is an [`FsEntry`]: a regular file, a directory, a symbolic
//! link or a hard link. GNU long-name and long-link entries and pax
//! extended headers override the path and link target of the entry that
//! follows them; pax global records are consumed; device and fifo entries,
//! which the sandbox cannot represent, are consumed and skipped. A zero
//! block ends the archive.

use vstd::arithmetic::div_mod::lemma_fundamental_div_mod;
use vstd::arithmetic::div_mod::lemma_mod_bound;
use vstd::prelude::*;
use vstd::slice::slice_subrange;
use vstd::slice::slice_to_vec;

use crate::err::Fault;
use crate::sandbox::FsEntry;
use crate::sandbox::FsEntryView;
use crate::sandbox::FsNode;
use crate::sandbox::FsNodeView;

verus! {

/// A block that is entirely NUL bytes ends the archive.
pub open spec fn zero_block(s: Seq<u8>) -> bool {
    forall|k: int| 0 <= k < s.len() ==> s[k] == 0u8
}

/// The bytes of a NUL-terminated field, up to its first NUL.
pub open spec fn until_nul(s: Seq<u8>) -> Seq<u8>
    decreases s.len(),
{
    if s.len() == 0 || s[0] == 0u8 {
        Seq::empty()
    } else {
        seq![s[0]] + until_nul(s.skip(1))
    }
}

/// One step of reading an octal field: leading spaces, then octal digits,
/// then NUL or space padding to the end. `seen` records whether a digit has
/// been read yet, `pad` whether padding has begun.
pub open spec fn octal_scan(s: Seq<u8>, seen: bool, pad: bool, acc: nat) -> Option<nat>
    decreases s.len(),
{
    if s.len() == 0 {
        if seen {
            Some(acc)
        } else {
            None
        }
    } else {
        let c = s[0];
        if !pad && 48 <= c <= 55 {
            octal_scan(s.skip(1), true, false, acc * 8 + (c - 48) as nat)
        } else if !seen && !pad && c == 32 {
            octal_scan(s.skip(1), false, false, 0)
        } else if seen && (c == 0 || c == 32) {
            octal_scan(s.skip(1), true, true, acc)
        } else {
            None
        }
    }
}

/// The value of an octal header field.
pub open spec fn parse_octal(s: Seq<u8>) -> Option<nat> {
    octal_scan(s, false, false, 0)
}

/// The big-endian value of the bytes of a base-256 field.
pub open spec fn base256_scan(s: Seq<u8>, acc: nat) -> nat
    decreases s.len(),
{
    if s.len() == 0 {
        acc
    } else {
        base256_scan(s.skip(1), (acc * 256 + s[0]) as nat)
    }
}

/// The value of a size field: octal, or the GNU base-256 encoding when the
/// first byte has its top bit set. Sizes at or above 64 GB are refused.
pub open spec fn parse_size(s: Seq<u8>) -> Option<nat> {
    if s.len() > 0 && s[0] >= 128 {
        let v = base256_scan(s.skip(1), (s[0] - 128) as nat);
        if v < 0x1000000000 {
            Some(v)
        } else {
            None
        }
    } else {
        parse_octal(s)
    }
}

/// The entry kinds that produce or skip an entry: regular and contiguous
/// files, directories, symbolic links, hard links, and the skippable
/// device and fifo kinds.
pub open spec fn typeflag_emits(t: u8) -> bool {
    t == 0 || t == 48 || t == 55 || t == 53 || t == 50 || t == 49 || t == 51 || t == 52 || t == 54
}

/// The metadata kinds that affect the entry that follows: GNU long name
/// and long link, pax extended header, pax global header.
pub open spec fn typeflag_meta(t: u8) -> bool {
    t == 76 || t == 75 || t == 120 || t == 103
}

/// The entry kinds the decoder accepts.
pub open spec fn typeflag_supported(t: u8) -> bool {
    typeflag_emits(t) || typeflag_meta(t)
}

/// The key of a pax path override record.
pub open spec fn pax_path_key() -> Seq<u8> {
    seq![112u8, 97u8, 116u8, 104u8]
}

/// The key of a pax link-target override record.
pub open spec fn pax_linkpath_key() -> Seq<u8> {
    seq![108u8, 105u8, 110u8, 107u8, 112u8, 97u8, 116u8, 104u8]
}

/// The index of the first `=` at or after `i`, if any.
pub open spec fn first_eq(s: Seq<u8>, i: int) -> Option<int>
    decreases s.len() - i,
{
    if i < 0 || i >= s.len() {
        None
    } else if s[i] == 61 {
        Some(i)
    } else {
        first_eq(s, i + 1)
    }
}

/// The decimal record length at the head of a pax record: digits, then a
/// space. Yields the index after the space and the value.
pub open spec fn pax_len_scan(s: Seq<u8>, i: int, acc: nat, seen: bool) -> Option<(int, nat)>
    decreases s.len() - i,
{
    if i < 0 || i >= s.len() {
        None
    } else if s[i] == 32 {
        if seen {
            Some((i + 1, acc))
        } else {
            None
        }
    } else if 48 <= s[i] <= 57 {
        if acc >= 0x10000000 {
            None
        } else {
            pax_len_scan(s, i + 1, acc * 10 + (s[i] - 48) as nat, true)
        }
    } else {
        None
    }
}

/// Reading the pax records of an extended header from position `pos` on:
/// each record is `length key=value` ending in a newline, the length
/// counting the whole record. The last `path` and `linkpath` values win;
/// a malformed record refuses the whole header.
pub open spec fn pax_scan(
    s: Seq<u8>,
    pos: int,
    po: Option<Seq<u8>>,
    lo: Option<Seq<u8>>,
) -> Option<(Option<Seq<u8>>, Option<Seq<u8>>)>
    decreases s.len() - pos,
{
    if pos < 0 || pos > s.len() {
        None
    } else if pos == s.len() {
        Some((po, lo))
    } else {
        match pax_len_scan(s, pos, 0, false) {
            Option::None => None,
            Option::Some(t) => {
                let dstart = t.0;
                let len = t.1;
                if pos + len > s.len() || len == 0 || dstart >= pos + len || s[pos + len - 1]
                    != 10 {
                    None
                } else {
                    let inner = s.subrange(dstart, pos + len - 1);
                    match first_eq(inner, 0) {
                        Option::None => None,
                        Option::Some(e) => {
                            let k = inner.subrange(0, e);
                            let v = inner.subrange(e + 1, inner.len() as int);
                            pax_scan(
                                s,
                                pos + len,
                                if k == pax_path_key() {
                                    Some(v)
                                } else {
                                    po
                                },
                                if k == pax_linkpath_key() {
                                    Some(v)
                                } else {
                                    lo
                                },
                            )
                        },
                    }
                }
            },
        }
    }
}

/// The mathematical value of a pending override.
pub open spec fn opt_bytes(o: Option<Vec<u8>>) -> Option<Seq<u8>> {
    match o {
        Option::Some(v) => Some(v@),
        Option::None => None,
    }
}

/// The entries decoded from a tar byte stream from one header on, with the
/// pending path and link-target overrides `po` and `lo`, or `None` when the
/// stream is malformed. Each header yields at most one entry; a zero block
/// or the end of the bytes ends the archive.
pub open spec fn tar_parse_at(s: Seq<u8>, po: Option<Seq<u8>>, lo: Option<Seq<u8>>) -> Option<
    Seq<FsEntryView>,
>
    decreases s.len(),
{
    if s.len() == 0 {
        Some(Seq::empty())
    } else if s.len() < 512 {
        None
    } else if zero_block(s.subrange(0, 512)) {
        Some(Seq::empty())
    } else {
        let name = until_nul(s.subrange(0, 100));
        let mode = parse_octal(s.subrange(100, 108));
        let size = parse_size(s.subrange(124, 136));
        let t = s[156];
        if name.len() == 0 || mode is None || size is None || mode->Some_0 > 0xffffffff
            || !typeflag_supported(t) {
            None
        } else {
            let sz = size->Some_0;
            let nd = ((sz + 511) / 512) as int;
            if 512 + nd * 512 > s.len() {
                None
            } else {
                let data = s.subrange(512, 512 + sz as int);
                if t == 120 && pax_scan(data, 0, po, lo) is None {
                    None
                } else {
                    let po2 = if t == 76 {
                        Some(until_nul(data))
                    } else if t == 75 || t == 103 {
                        po
                    } else if t == 120 {
                        pax_scan(data, 0, po, lo)->Some_0.0
                    } else {
                        None
                    };
                    let lo2 = if t == 75 {
                        Some(until_nul(data))
                    } else if t == 76 || t == 103 {
                        lo
                    } else if t == 120 {
                        pax_scan(data, 0, po, lo)->Some_0.1
                    } else {
                        None
                    };
                    match tar_parse_at(s.skip(512 + nd * 512), po2, lo2) {
                        Option::None => None,
                        Option::Some(rest) => Some(
                            entry_of_header(s, mode->Some_0 as u32, sz as int, po, lo) + rest,
                        ),
                    }
                }
            }
        }
    }
}

/// The entries decoded from a whole tar byte stream.
pub open spec fn tar_parse(s: Seq<u8>) -> Option<Seq<FsEntryView>> {
    tar_parse_at(s, None, None)
}

/// The entry (or nothing, for a metadata or skipped kind) that one header
/// block and its data describe, under the pending overrides.
pub open spec fn entry_of_header(
    s: Seq<u8>,
    mode: u32,
    sz: int,
    po: Option<Seq<u8>>,
    lo: Option<Seq<u8>>,
) -> Seq<FsEntryView> {
    let name = until_nul(s.subrange(0, 100));
    let prefix = until_nul(s.subrange(345, 500));
    let typeflag = s[156];
    let path = match po {
        Option::Some(p) => p,
        Option::None => if prefix.len() > 0 {
            prefix + seq![47u8] + name
        } else {
            name
        },
    };
    let link = match lo {
        Option::Some(l) => l,
        Option::None => until_nul(s.subrange(157, 257)),
    };
    let data = s.subrange(512, 512 + sz);
    if typeflag == 0 || typeflag == 48 || typeflag == 55 {
        seq![FsEntryView { path, node: FsNodeView::File(mode, data) }]
    } else if typeflag == 53 {
        seq![FsEntryView { path, node: FsNodeView::Dir(mode) }]
    } else if typeflag == 50 {
        seq![FsEntryView { path, node: FsNodeView::Symlink(link) }]
    } else if typeflag == 49 {
        seq![FsEntryView { path, node: FsNodeView::Hardlink(link) }]
    } else {
        Seq::empty()
    }
}

fn is_zero_block(b: &[u8], pos: usize) -> (r: bool)
    requires
        pos + 512 <= b@.len(),
    ensures
        r == zero_block(b@.subrange(pos as int, pos as int + 512)),
{
    let n = b.len();
    let ghost sub = b@.subrange(pos as int, pos as int + 512);
    let mut j: usize = 0;
    while j < 512
        invariant
            j <= 512,
            pos + 512 <= n == b@.len(),
            sub == b@.subrange(pos as int, pos as int + 512),
            forall|k: int| 0 <= k < j ==> sub[k] == 0u8,
        decreases 512 - j,
    {
        proof {
            assert(sub[j as int] == b@[pos + j]);
        }
        if b[pos + j] != 0 {
            return false;
        }
        j = j + 1;
    }
    true
}

fn read_until_nul(b: &[u8], start: usize, end: usize) -> (r: Vec<u8>)
    requires
        start <= end <= b@.len(),
    ensures
        r@ == until_nul(b@.subrange(start as int, end as int)),
{
    let ghost sub = b@.subrange(start as int, end as int);
    let mut out: Vec<u8> = Vec::new();
    let mut j: usize = start;
    proof {
        assert(sub.skip(0) =~= sub);
        assert(out@ + until_nul(sub) =~= until_nul(sub));
    }
    while j < end
        invariant
            start <= j <= end,
            end <= b@.len(),
            sub == b@.subrange(start as int, end as int),
            until_nul(sub) == out@ + until_nul(sub.skip(j - start)),
        decreases end - j,
    {
        let ghost rem = sub.skip(j - start);
        proof {
            assert(rem[0] == sub[j - start]);
            assert(sub[j - start] == b@[j as int]);
        }
        let c = b[j];
        if c == 0 {
            proof {
                assert(until_nul(rem) =~= Seq::<u8>::empty());
                assert(out@ + until_nul(rem) =~= out@);
            }
            return out;
        }
        proof {
            assert(rem.skip(1) =~= sub.skip(j - start + 1));
            assert(until_nul(rem) == seq![c] + until_nul(sub.skip(j - start + 1)));
            assert(out@ + (seq![c] + until_nul(sub.skip(j - start + 1))) =~= (out@ + seq![c])
                + until_nul(sub.skip(j - start + 1)));
        }
        out.push(c);
        j = j + 1;
    }
    proof {
        assert(sub.skip(end - start) =~= Seq::<u8>::empty());
        assert(out@ + until_nul(sub.skip(end - start)) =~= out@);
    }
    out
}

fn parse_octal_field(b: &[u8], start: usize, end: usize) -> (r: Option<u64>)
    requires
        start <= end <= b@.len(),
        end - start <= 12,
    ensures
        match r {
            Option::None => parse_octal(b@.subrange(start as int, end as int)) is None,
            Option::Some(v) => parse_octal(b@.subrange(start as int, end as int)) == Some(
                v as nat,
            ) && v < 0x1000000000,
        },
{
    let ghost sub = b@.subrange(start as int, end as int);
    let mut acc: u64 = 0;
    let mut seen: bool = false;
    let mut pad: bool = false;
    let mut j: usize = start;
    proof {
        assert(sub.skip(0) =~= sub);
    }
    while j < end
        invariant
            start <= j <= end,
            end <= b@.len(),
            end - start <= 12,
            sub == b@.subrange(start as int, end as int),
            parse_octal(sub) == octal_scan(sub.skip(j - start), seen, pad, acc as nat),
            acc < pow8((j - start) as nat),
            !seen ==> acc == 0,
        decreases end - j,
    {
        let ghost rem = sub.skip(j - start);
        proof {
            assert(rem[0] == sub[j - start]);
            assert(sub[j - start] == b@[j as int]);
            assert(rem.skip(1) =~= sub.skip(j - start + 1));
            lemma_pow8_mono((j - start) as nat, 11);
            lemma_pow8_values();
        }
        let c = b[j];
        if !pad && 48 <= c && c <= 55 {
            acc = acc * 8 + (c - 48) as u64;
            seen = true;
            proof {
                lemma_pow8_step((j - start) as nat);
            }
        } else if !seen && !pad && c == 32 {
            proof {
                lemma_pow8_mono(0, (j - start + 1) as nat);
            }
        } else if seen && (c == 0 || c == 32) {
            pad = true;
            proof {
                lemma_pow8_mono((j - start) as nat, (j - start + 1) as nat);
            }
        } else {
            return None;
        }
        j = j + 1;
    }
    proof {
        assert(sub.skip(end - start) =~= Seq::<u8>::empty());
        lemma_pow8_mono((end - start) as nat, 12);
        lemma_pow8_values();
    }
    if seen {
        Some(acc)
    } else {
        None
    }
}

proof fn lemma_base256_lower(s: Seq<u8>, acc: nat)
    ensures
        base256_scan(s, acc) >= acc,
    decreases s.len(),
{
    if s.len() > 0 {
        lemma_base256_lower(s.skip(1), (acc * 256 + s[0]) as nat);
    }
}

fn parse_size_field(b: &[u8], start: usize, end: usize) -> (r: Option<u64>)
    requires
        start < end <= b@.len(),
        end - start <= 12,
    ensures
        match r {
            Option::None => parse_size(b@.subrange(start as int, end as int)) is None,
            Option::Some(v) => parse_size(b@.subrange(start as int, end as int)) == Some(
                v as nat,
            ) && v < 0x1000000000,
        },
{
    let ghost sub = b@.subrange(start as int, end as int);
    proof {
        assert(sub[0] == b@[start as int]);
    }
    if b[start] < 128 {
        return parse_octal_field(b, start, end);
    }
    let ghost tail = sub.skip(1);
    let mut acc: u64 = (b[start] - 128) as u64;
    let mut j: usize = start + 1;
    proof {
        assert(tail.skip(0) =~= tail);
    }
    while j < end
        invariant
            start + 1 <= j <= end,
            start < end <= b@.len(),
            sub == b@.subrange(start as int, end as int),
            sub[0] >= 128,
            tail == sub.skip(1),
            base256_scan(tail, (sub[0] - 128) as nat) == base256_scan(
                tail.skip(j - start - 1),
                acc as nat,
            ),
            acc < 0x1000000000,
        decreases end - j,
    {
        let ghost rem = tail.skip(j - start - 1);
        proof {
            assert(rem.len() == end - j);
            assert(rem[0] == tail[j - start - 1]);
            assert(tail[j - start - 1] == sub[j - start]);
            assert(sub[j - start] == b@[j as int]);
            assert(rem.skip(1) =~= tail.skip(j - start));
        }
        if acc >= 0x10000000 {
            proof {
                assert(base256_scan(rem, acc as nat) == base256_scan(
                    rem.skip(1),
                    (acc as nat * 256 + rem[0]) as nat,
                ));
                lemma_base256_lower(rem.skip(1), (acc as nat * 256 + rem[0]) as nat);
                assert(base256_scan(rem, acc as nat) >= 256 * (acc as nat));
                assert(base256_scan(tail, (sub[0] - 128) as nat) >= 0x1000000000);
                assert(parse_size(sub) is None);
            }
            return None;
        }
        acc = acc * 256 + b[j] as u64;
        j = j + 1;
    }
    proof {
        assert(tail.skip(end - start - 1) =~= Seq::<u8>::empty());
        assert(base256_scan(tail, (sub[0] - 128) as nat) == acc as nat);
        assert(parse_size(sub) == Some(acc as nat));
    }
    Some(acc)
}

fn scan_pax_len(d: &[u8], pos: usize) -> (r: Option<(usize, u64)>)
    requires
        pos <= d@.len(),
    ensures
        match r {
            Option::None => pax_len_scan(d@, pos as int, 0, false) is None,
            Option::Some(t) => pax_len_scan(d@, pos as int, 0, false) == Some(
                (t.0 as int, t.1 as nat),
            ) && pos < t.0 <= d@.len() && t.1 < 0x100000000,
        },
{
    let n = d.len();
    let mut i: usize = pos;
    let mut acc: u64 = 0;
    let mut seen: bool = false;
    loop
        invariant
            pos <= i <= n,
            n == d@.len(),
            pax_len_scan(d@, pos as int, 0, false) == pax_len_scan(d@, i as int, acc as nat, seen),
            acc < 0x100000000,
        decreases n - i,
    {
        if i == n {
            return None;
        }
        let c = d[i];
        if c == 32 {
            if seen {
                return Some((i + 1, acc));
            }
            return None;
        }
        if 48 <= c && c <= 57 {
            if acc >= 0x10000000 {
                return None;
            }
            acc = acc * 10 + (c - 48) as u64;
            seen = true;
            i = i + 1;
        } else {
            return None;
        }
    }
}

fn find_eq(d: &[u8], start: usize, end: usize) -> (r: Option<usize>)
    requires
        start <= end <= d@.len(),
    ensures
        ({
            let inner = d@.subrange(start as int, end as int);
            match r {
                Option::None => first_eq(inner, 0) is None,
                Option::Some(j) => start <= j < end && first_eq(inner, 0) == Some(
                    (j - start) as int,
                ),
            }
        }),
{
    let ghost inner = d@.subrange(start as int, end as int);
    let mut j: usize = start;
    while j < end
        invariant
            start <= j <= end,
            end <= d@.len(),
            inner == d@.subrange(start as int, end as int),
            first_eq(inner, 0) == first_eq(inner, j - start),
        decreases end - j,
    {
        proof {
            assert(inner[j - start] == d@[j as int]);
        }
        if d[j] == 61 {
            return Some(j);
        }
        j = j + 1;
    }
    None
}

fn pax_overrides(d: &[u8], po: Option<Vec<u8>>, lo: Option<Vec<u8>>) -> (r: Option<
    (Option<Vec<u8>>, Option<Vec<u8>>),
>)
    ensures
        match pax_scan(d@, 0, opt_bytes(po), opt_bytes(lo)) {
            Option::None => r is None,
            Option::Some(t) => r is Some && opt_bytes(r->Some_0.0) == t.0 && opt_bytes(
                r->Some_0.1,
            ) == t.1,
        },
{
    let ghost gpo = opt_bytes(po);
    let ghost glo = opt_bytes(lo);
    let n = d.len();
    let mut pos: usize = 0;
    let mut cpo = po;
    let mut clo = lo;
    loop
        invariant
            pos <= n,
            n == d@.len(),
            gpo == opt_bytes(po),
            glo == opt_bytes(lo),
            pax_scan(d@, 0, gpo, glo) == pax_scan(d@, pos as int, opt_bytes(cpo), opt_bytes(clo)),
        decreases n - pos,
    {
        if pos == n {
            return Some((cpo, clo));
        }
        let (dstart, len) = match scan_pax_len(d, pos) {
            Option::Some(t) => t,
            Option::None => {
                proof {
                    assert(pax_scan(d@, pos as int, opt_bytes(cpo), opt_bytes(clo)) is None);
                }
                return None;
            },
        };
        if len > (n - pos) as u64 || len == 0 || (dstart - pos) as u64 >= len {
            proof {
                assert(pax_scan(d@, pos as int, opt_bytes(cpo), opt_bytes(clo)) is None);
            }
            return None;
        }
        let rec_end: usize = pos + len as usize;
        if d[rec_end - 1] != 10 {
            proof {
                assert(pax_scan(d@, pos as int, opt_bytes(cpo), opt_bytes(clo)) is None);
            }
            return None;
        }
        let ghost inner = d@.subrange(dstart as int, rec_end - 1);
        let j = match find_eq(d, dstart, rec_end - 1) {
            Option::Some(j) => j,
            Option::None => {
                proof {
                    assert(pax_scan(d@, pos as int, opt_bytes(cpo), opt_bytes(clo)) is None);
                }
                return None;
            },
        };
        let k_vec = slice_to_vec(slice_subrange(d, dstart, j));
        let v_vec = slice_to_vec(slice_subrange(d, j + 1, rec_end - 1));
        let ghost e = j - dstart;
        proof {
            assert(k_vec@ =~= inner.subrange(0, e as int));
            assert(v_vec@ =~= inner.subrange(e + 1, inner.len() as int));
        }
        let is_path = k_vec.len() == 4 && k_vec[0] == 112 && k_vec[1] == 97 && k_vec[2] == 116
            && k_vec[3] == 104;
        let is_linkpath = k_vec.len() == 8 && k_vec[0] == 108 && k_vec[1] == 105 && k_vec[2] == 110
            && k_vec[3] == 107 && k_vec[4] == 112 && k_vec[5] == 97 && k_vec[6] == 116
            && k_vec[7] == 104;
        proof {
            if k_vec@ == pax_path_key() {
                assert(k_vec@.len() == 4 && k_vec@[0] == 112u8 && k_vec@[1] == 97u8 && k_vec@[2]
                    == 116u8 && k_vec@[3] == 104u8);
            }
            if is_path {
                assert(k_vec@ =~= pax_path_key());
            }
            if k_vec@ == pax_linkpath_key() {
                assert(k_vec@.len() == 8 && k_vec@[0] == 108u8 && k_vec@[1] == 105u8 && k_vec@[2]
                    == 110u8 && k_vec@[3] == 107u8 && k_vec@[4] == 112u8 && k_vec@[5] == 97u8
                    && k_vec@[6] == 116u8 && k_vec@[7] == 104u8);
            }
            if is_linkpath {
                assert(k_vec@ =~= pax_linkpath_key());
            }
        }
        let ghost oldpo = opt_bytes(cpo);
        let ghost oldlo = opt_bytes(clo);
        if is_path {
            cpo = Some(v_vec);
        } else if is_linkpath {
            clo = Some(v_vec);
        }
        proof {
            assert(pax_scan(d@, pos as int, oldpo, oldlo) == pax_scan(
                d@,
                rec_end as int,
                opt_bytes(cpo),
                opt_bytes(clo),
            ));
        }
        pos = rec_end;
    }
}

/// What one decoded header contributes to the entry list.
pub open spec fn opt_entry_seq(o: Option<FsEntry>) -> Seq<FsEntryView> {
    match o {
        Option::None => Seq::empty(),
        Option::Some(e) => seq![e@],
    }
}

enum Step {
    End,
    Item(Option<FsEntry>, usize, Option<Vec<u8>>, Option<Vec<u8>>),
}

fn parse_step(b: &[u8], pos: usize, po: Option<Vec<u8>>, lo: Option<Vec<u8>>) -> (r: Result<
    Step,
    Fault,
>)
    requires
        pos < b@.len(),
    ensures
        match r {
            Result::Err(e) => e == Fault::ArchiveError && tar_parse_at(
                b@.skip(pos as int),
                opt_bytes(po),
                opt_bytes(lo),
            ) is None,
            Result::Ok(Step::End) => tar_parse_at(b@.skip(pos as int), opt_bytes(po), opt_bytes(lo))
                == Some(Seq::<FsEntryView>::empty()),
            Result::Ok(Step::Item(o, pos2, po2, lo2)) => pos < pos2 <= b@.len() && (match
                tar_parse_at(b@.skip(pos2 as int), opt_bytes(po2), opt_bytes(lo2)) {
                Option::None => tar_parse_at(b@.skip(pos as int), opt_bytes(po), opt_bytes(lo))
                    is None,
                Option::Some(rest) => tar_parse_at(b@.skip(pos as int), opt_bytes(po), opt_bytes(lo))
                    == Some(opt_entry_seq(o) + rest),
            }),
        },
{
    let ghost gpo = opt_bytes(po);
    let ghost glo = opt_bytes(lo);
    let len = b.len();
    let ghost s = b@.skip(pos as int);
    proof {
        assert(s.len() == b@.len() - pos);
    }
    if len - pos < 512 {
        return Err(Fault::ArchiveError);
    }
    proof {
        assert(b@.subrange(pos as int, pos as int + 512) =~= s.subrange(0, 512));
    }
    if is_zero_block(b, pos) {
        return Ok(Step::End);
    }
    proof {
        assert(b@.subrange(pos as int, pos as int + 100) =~= s.subrange(0, 100));
        assert(b@.subrange(pos as int + 100, pos as int + 108) =~= s.subrange(100, 108));
        assert(b@.subrange(pos as int + 124, pos as int + 136) =~= s.subrange(124, 136));
        assert(b@.subrange(pos as int + 157, pos as int + 257) =~= s.subrange(157, 257));
        assert(b@.subrange(pos as int + 345, pos as int + 500) =~= s.subrange(345, 500));
        assert(s[156] == b@[pos + 156]);
    }
    let name = read_until_nul(b, pos, pos + 100);
    let mode_o = parse_octal_field(b, pos + 100, pos + 108);
    let size_o = parse_size_field(b, pos + 124, pos + 136);
    let typeflag = b[pos + 156];
    if name.len() == 0 {
        return Err(Fault::ArchiveError);
    }
    let mode: u64 = match mode_o {
        Option::Some(m) => m,
        Option::None => {
            return Err(Fault::ArchiveError);
        },
    };
    if mode > 0xffffffff {
        return Err(Fault::ArchiveError);
    }
    if !(typeflag == 0 || typeflag == 48 || typeflag == 55 || typeflag == 53 || typeflag == 50
        || typeflag == 49 || typeflag == 51 || typeflag == 52 || typeflag == 54 || typeflag == 76
        || typeflag == 75 || typeflag == 120 || typeflag == 103) {
        return Err(Fault::ArchiveError);
    }
    let size: u64 = match size_o {
        Option::Some(v) => v,
        Option::None => {
            return Err(Fault::ArchiveError);
        },
    };
    let nd: u64 = (size + 511) / 512;
    proof {
        lemma_fundamental_div_mod(size as int + 511, 512);
        lemma_mod_bound(size as int + 511, 512);
    }
    let jump: u64 = 512 + nd * 512;
    if jump > (len - pos) as u64 {
        return Err(Fault::ArchiveError);
    }
    let jump_us: usize = jump as usize;
    let pos2: usize = pos + jump_us;
    proof {
        assert(size + 512 <= jump);
        assert(s.skip(512 + nd * 512) =~= b@.skip(pos2 as int));
    }
    let data = slice_to_vec(slice_subrange(b, pos + 512, pos + 512 + size as usize));
    proof {
        assert(data@ =~= s.subrange(512, 512 + size as int));
    }
    let step: Step = if typeflag == 76 {
        let nm = read_until_nul(data.as_slice(), 0, data.len());
        proof {
            assert(data@.subrange(0, data@.len() as int) =~= data@);
        }
        Step::Item(None, pos2, Some(nm), lo)
    } else if typeflag == 75 {
        let lk = read_until_nul(data.as_slice(), 0, data.len());
        proof {
            assert(data@.subrange(0, data@.len() as int) =~= data@);
        }
        Step::Item(None, pos2, po, Some(lk))
    } else if typeflag == 103 {
        Step::Item(None, pos2, po, lo)
    } else if typeflag == 120 {
        match pax_overrides(data.as_slice(), po, lo) {
            Option::Some(t) => Step::Item(None, pos2, t.0, t.1),
            Option::None => {
                return Err(Fault::ArchiveError);
            },
        }
    } else {
        let link: Vec<u8> = match lo {
            Option::Some(l) => l,
            Option::None => read_until_nul(b, pos + 157, pos + 257),
        };
        let prefix = read_until_nul(b, pos + 345, pos + 500);
        let path: Vec<u8> = match po {
            Option::Some(p) => p,
            Option::None => {
                if prefix.len() > 0 {
                    let mut p = prefix;
                    p.push(47);
                    let mut nm = name;
                    p.append(&mut nm);
                    p
                } else {
                    name
                }
            },
        };
        proof {
            if gpo is None && until_nul(s.subrange(345, 500)).len() > 0 {
                assert(path@ =~= until_nul(s.subrange(345, 500)) + seq![47u8] + until_nul(
                    s.subrange(0, 100),
                ));
            }
        }
        let entry_opt: Option<FsEntry> = if typeflag == 0 || typeflag == 48 || typeflag == 55 {
            Some(FsEntry { path, node: FsNode::File(mode as u32, data) })
        } else if typeflag == 53 {
            Some(FsEntry { path, node: FsNode::Dir(mode as u32) })
        } else if typeflag == 50 {
            Some(FsEntry { path, node: FsNode::Symlink(link) })
        } else if typeflag == 49 {
            Some(FsEntry { path, node: FsNode::Hardlink(link) })
        } else {
            None
        };
        proof {
            assert(opt_entry_seq(entry_opt) =~= entry_of_header(
                s,
                mode as u32,
                size as int,
                gpo,
                glo,
            ));
        }
        Step::Item(entry_opt, pos2, None, None)
    };
    proof {
        match &step {
            Step::Item(o, p2, po2, lo2) => {
                assert(tar_parse_at(s, gpo, glo) == (match tar_parse_at(
                    b@.skip(*p2 as int),
                    opt_bytes(*po2),
                    opt_bytes(*lo2),
                ) {
                    Option::None => None::<Seq<FsEntryView>>,
                    Option::Some(rest) => Some(
                        entry_of_header(s, mode as u32, size as int, gpo, glo) + rest,
                    ),
                }));
                if !(typeflag_emits(typeflag)) {
                    assert(entry_of_header(s, mode as u32, size as int, gpo, glo)
                        =~= Seq::<FsEntryView>::empty());
                    assert(opt_entry_seq(*o) =~= Seq::<FsEntryView>::empty());
                }
            },
            _ => {
                assert(false);
            },
        }
    }
    Ok(step)
}

/// Decodes a whole tar stream into its entries, in archive order; fails with
/// [`Fault::ArchiveError`] exactly when the stream is malformed.
pub fn parse_tar(b: &[u8]) -> (r: Result<Vec<FsEntry>, Fault>)
    ensures
        match tar_parse(b@) {
            Option::None => r is Err && r->Err_0 == Fault::ArchiveError,
            Option::Some(es) => r is Ok && crate::sandbox::views_of(r->Ok_0@) == es,
        },
{
    let mut pos: usize = 0;
    let mut out: Vec<FsEntry> = Vec::new();
    let mut po: Option<Vec<u8>> = None;
    let mut lo: Option<Vec<u8>> = None;
    proof {
        assert(b@.skip(0) =~= b@);
        assert(crate::sandbox::views_of(out@) =~= Seq::<FsEntryView>::empty());
        if tar_parse(b@) is Some {
            assert(crate::sandbox::views_of(out@) + tar_parse(b@)->Some_0 =~= tar_parse(
                b@,
            )->Some_0);
        }
    }
    loop
        invariant
            pos <= b@.len(),
            tar_parse(b@) == (match tar_parse_at(b@.skip(pos as int), opt_bytes(po), opt_bytes(lo)) {
                Option::None => None::<Seq<FsEntryView>>,
                Option::Some(rest) => Some(crate::sandbox::views_of(out@) + rest),
            }),
        decreases b@.len() - pos,
    {
        if pos == b.len() {
            proof {
                assert(b@.skip(pos as int) =~= Seq::<u8>::empty());
                if tar_parse(b@) is Some {
                    assert(crate::sandbox::views_of(out@) + Seq::<FsEntryView>::empty()
                        =~= crate::sandbox::views_of(out@));
                }
            }
            return Ok(out);
        }
        match parse_step(b, pos, po, lo) {
            Result::Err(e) => {
                return Err(e);
            },
            Result::Ok(Step::End) => {
                proof {
                    if tar_parse(b@) is Some {
                        assert(crate::sandbox::views_of(out@) + Seq::<FsEntryView>::empty()
                            =~= crate::sandbox::views_of(out@));
                    }
                }
                return Ok(out);
            },
            Result::Ok(Step::Item(o, pos2, po2, lo2)) => {
                let ghost out0 = crate::sandbox::views_of(out@);
                let ghost ov = opt_entry_seq(o);
                match o {
                    Option::Some(e) => {
                        let ghost ev = e@;
                        proof {
                            assert(ov == seq![ev]);
                        }
                        out.push(e);
                        proof {
                            assert(crate::sandbox::views_of(out@) =~= out0 + seq![ev]);
                        }
                    },
                    Option::None => {
                        proof {
                            assert(ov =~= Seq::<FsEntryView>::empty());
                        }
                    },
                }
                proof {
                    match tar_parse_at(b@.skip(pos2 as int), opt_bytes(po2), opt_bytes(lo2)) {
                        Option::None => {},
                        Option::Some(rest2) => {
                            assert(out0 + (ov + rest2) =~= crate::sandbox::views_of(out@) + rest2);
                        },
                    }
                }
                pos = pos2;
                po = po2;
                lo = lo2;
            },
        }
    }
}

pub open spec fn pow8(n: nat) -> nat
    decreases n,
{
    if n == 0 {
        1
    } else {
        8 * pow8((n - 1) as nat)
    }
}

proof fn lemma_pow8_mono(a: nat, b: nat)
    requires
        a <= b,
    ensures
        pow8(a) <= pow8(b),
    decreases b,
{
    if a < b && b > 0 {
        lemma_pow8_mono(a, (b - 1) as nat);
    }
}

proof fn lemma_pow8_step(n: nat)
    ensures
        pow8((n + 1) as nat) == 8 * pow8(n),
{
}

proof fn lemma_pow8_values()
    ensures
        pow8(11) == 0x200000000,
        pow8(12) == 0x1000000000,
{
    assert(pow8(0) == 1);
    assert(pow8(1) == 8);
    assert(pow8(2) == 64);
    assert(pow8(3) == 512);
    assert(pow8(4) == 0x1000);
    assert(pow8(5) == 0x8000);
    assert(pow8(6) == 0x40000);
    assert(pow8(7) == 0x200000);
    assert(pow8(8) == 0x1000000);
    assert(pow8(9) == 0x8000000);
    assert(pow8(10) == 0x40000000);
    assert(pow8(11) == 0x200000000);
    assert(pow8(12) == 0x1000000000);
}

} // verus!
