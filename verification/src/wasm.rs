//! The section splitter: parses the WebAssembly container into its section
//! sequence, telling custom sections (id 0, with a length-prefixed name)
//! from standard sections.
//!
//! The grammar is stated by `spec_parse_module`; `parse_sections` is proved
//! to decide it exactly.

use vstd::prelude::*;
use vstd::slice::{slice_subrange, slice_to_vec};
use crate::error::ExtractError;

verus! {

/// What kind of section a record is.
pub enum SectionKind {
    /// A custom section; its id byte is 0 and its payload begins with a name.
    Custom { name: Vec<u8> },
    /// A standard section, known only by its id byte.
    Standard { id: u8 },
}

/// One section of a WebAssembly module.
pub struct Section {
    pub kind: SectionKind,
    pub payload: Vec<u8>,
}

/// Mathematical model of a section kind.
#[verifier::ext_equal]
pub enum SpecKind {
    Custom { name: Seq<u8> },
    Standard { id: u8 },
}

/// Mathematical model of a section.
#[verifier::ext_equal]
pub struct SpecSection {
    pub kind: SpecKind,
    pub payload: Seq<u8>,
}

impl View for SectionKind {
    type V = SpecKind;

    open spec fn view(&self) -> SpecKind {
        match self {
            SectionKind::Custom { name } => SpecKind::Custom { name: name@ },
            SectionKind::Standard { id } => SpecKind::Standard { id: *id },
        }
    }
}

impl View for Section {
    type V = SpecSection;

    open spec fn view(&self) -> SpecSection {
        SpecSection { kind: self.kind@, payload: self.payload@ }
    }
}

/// 128 to the power `k`: the weight of the `k`-th LEB128 byte.
pub open spec fn p128(k: nat) -> int
    decreases k,
{
    if k == 0 {
        1
    } else {
        128 * p128((k - 1) as nat)
    }
}

proof fn lemma_p128_pos(k: nat)
    ensures
        p128(k) > 0,
    decreases k,
{
    if k > 0 {
        lemma_p128_pos((k - 1) as nat);
    }
}

proof fn lemma_p128_mono(a: nat, b: nat)
    requires
        a <= b,
    ensures
        0 < p128(a) <= p128(b),
    decreases b,
{
    if a == b {
        lemma_p128_pos(a);
    } else {
        lemma_p128_mono(a, (b - 1) as nat);
    }
}

/// Unsigned LEB128 value beginning at index `i`, allowed at most `m` bytes:
/// `None` on truncation or when the encoding runs past `m` bytes, else the
/// value and the index just past it.
pub open spec fn leb(s: Seq<u8>, i: int, m: nat) -> Option<(int, int)>
    decreases m,
{
    if m == 0 || !(0 <= i < s.len()) {
        None
    } else {
        let b = s[i];
        if b < 128 {
            Some((b as int, i + 1))
        } else {
            match leb(s, i + 1, (m - 1) as nat) {
                Some(pair) => Some(((b - 128) + 128 * pair.0, pair.1)),
                None => None,
            }
        }
    }
}

pub proof fn lemma_leb_bounds(s: Seq<u8>, i: int, m: nat)
    requires
        leb(s, i, m) is Some,
    ensures
        ({
            let p = leb(s, i, m)->0;
            i < p.1 <= s.len() && 0 <= p.0 < p128(m)
        }),
    decreases m,
{
    let b = s[i];
    if b < 128 {
        lemma_p128_mono(1, m);
    } else {
        lemma_leb_bounds(s, i + 1, (m - 1) as nat);
        let rest = (leb(s, i + 1, (m - 1) as nat)->0).0;
        assert((b - 128) + 128 * rest < 128 * p128((m - 1) as nat)) by {
            assert(rest <= p128((m - 1) as nat) - 1);
            assert(128 * rest <= 128 * (p128((m - 1) as nat) - 1)) by (nonlinear_arith)
                requires
                    rest <= p128((m - 1) as nat) - 1,
            ;
        }
    }
}

/// Read an unsigned LEB128 value, at most `m` bytes of it.
fn read_leb(s: &[u8], i: usize, m: u32) -> (r: Option<(u64, usize)>)
    requires
        m <= 9,
    ensures
        match r {
            Some(p) => leb(s@, i as int, m as nat) == Some((p.0 as int, p.1 as int)) && p.0
                < p128(m as nat) && i < p.1 <= s@.len(),
            None => leb(s@, i as int, m as nat) is None,
        },
    decreases m,
{
    if m == 0 || i >= s.len() {
        return None;
    }
    let b = s[i];
    if b < 128 {
        proof {
            lemma_p128_mono(1, m as nat);
        }
        Some((b as u64, i + 1))
    } else {
        match read_leb(s, i + 1, m - 1) {
            Some((v, end)) => {
                proof {
                    assert(p128(9) == 0x8000000000000000) by {
                        reveal_with_fuel(p128, 10);
                    }
                    assert(128 * (v as int) < 128 * p128((m - 1) as nat)) by (nonlinear_arith)
                        requires
                            v < p128((m - 1) as nat),
                    ;
                    assert(128 * p128((m - 1) as nat) == p128(m as nat));
                    lemma_p128_mono(m as nat, 9);
                }
                Some(((b - 128) as u64 + 128 * v, end))
            },
            None => None,
        }
    }
}

/// The body of one section, given its id byte and raw payload: a custom
/// section's payload opens with a length-prefixed name.
pub open spec fn spec_section_body(id: u8, payload: Seq<u8>) -> Option<SpecSection> {
    if id == 0 {
        match leb(payload, 0, 5) {
            None => None,
            Some((nlen, j)) => if nlen > u32::MAX || j + nlen > payload.len() {
                None
            } else {
                Some(
                    SpecSection {
                        kind: SpecKind::Custom { name: payload.subrange(j, j + nlen) },
                        payload: payload.subrange(j + nlen, payload.len() as int),
                    },
                )
            },
        }
    } else {
        Some(SpecSection { kind: SpecKind::Standard { id }, payload })
    }
}

/// The section sequence encoded in `s` from index `i` to the end;
/// `None` when it is malformed.
pub open spec fn spec_sections(s: Seq<u8>, i: int) -> Option<Seq<SpecSection>>
    decreases s.len() - i when 0 <= i <= s.len() via spec_sections_dec
{
    if i == s.len() {
        Some(Seq::empty())
    } else {
        let id = s[i];
        match leb(s, i + 1, 5) {
            None => None,
            Some((len, j)) => {
                if len > u32::MAX || j + len > s.len() {
                    None
                } else {
                    match spec_section_body(id, s.subrange(j, j + len)) {
                        None => None,
                        Some(sec) => match spec_sections(s, j + len) {
                            None => None,
                            Some(rest) => Some(seq![sec] + rest),
                        },
                    }
                }
            },
        }
    }
}

#[via_fn]
proof fn spec_sections_dec(s: Seq<u8>, i: int) {
    if i != s.len() {
        if leb(s, i + 1, 5) is Some {
            lemma_leb_bounds(s, i + 1, 5);
        }
    }
}

/// The `\0asm` magic.
pub open spec fn spec_magic() -> Seq<u8> {
    seq![0u8, 0x61u8, 0x73u8, 0x6du8]
}

/// The version field, little endian.
pub open spec fn spec_version(s: Seq<u8>) -> int {
    s[4] + 0x100 * s[5] + 0x10000 * s[6] + 0x1000000 * s[7]
}

/// The outcome the container grammar assigns to a byte sequence.
pub enum SpecParse {
    /// Shorter than the magic, or the magic mismatches.
    BadMagic,
    /// The version field is not 1.
    BadVersion(int),
    /// Truncated or malformed section data.
    Malformed,
    /// A well-formed module with these sections.
    Sections(Seq<SpecSection>),
}

/// What parsing a whole module yields.
pub open spec fn spec_parse_module(s: Seq<u8>) -> SpecParse {
    if s.len() < 4 || s.subrange(0, 4) != spec_magic() {
        SpecParse::BadMagic
    } else if s.len() < 8 {
        SpecParse::Malformed
    } else if spec_version(s) != 1 {
        SpecParse::BadVersion(spec_version(s))
    } else {
        match spec_sections(s, 8) {
            None => SpecParse::Malformed,
            Some(secs) => SpecParse::Sections(secs),
        }
    }
}

/// The views of a sequence of parsed sections.
pub open spec fn section_views(v: Seq<Section>) -> Seq<SpecSection> {
    v.map_values(|x: Section| x@)
}

/// Parse the payload of a custom section into its name and remainder.
fn parse_custom(payload: Vec<u8>) -> (r: Option<Section>)
    ensures
        match spec_section_body(0, payload@) {
            Some(sec) => r is Some && r->0@ == sec,
            None => r is None,
        },
{
    match read_leb(payload.as_slice(), 0, 5) {
        None => None,
        Some((nlen64, j)) => {
            if nlen64 > 0xffff_ffffu64 {
                return None;
            }
            let nlen = nlen64 as usize;
            if nlen > payload.len() - j {
                return None;
            }
            let name = slice_to_vec(slice_subrange(payload.as_slice(), j, j + nlen));
            let rest = slice_to_vec(slice_subrange(payload.as_slice(), j + nlen, payload.len()));
            Some(Section { kind: SectionKind::Custom { name }, payload: rest })
        },
    }
}

/// Split a WebAssembly module into its sections.
///
/// Decides `spec_parse_module` exactly: the magic and version failures map to
/// their own errors, malformed or truncated section data to an internal
/// error, and a well-formed module to its section sequence.
pub fn parse_sections(src: &[u8]) -> (r: Result<Vec<Section>, ExtractError>)
    ensures
        match spec_parse_module(src@) {
            SpecParse::BadMagic => r matches Err(ExtractError::InvalidMagic),
            SpecParse::BadVersion(v) => r matches Err(ExtractError::UnsupportedVersion(got))
                && got == v,
            SpecParse::Malformed => r matches Err(ExtractError::Internal(_)),
            SpecParse::Sections(secs) => r matches Ok(out) && section_views(out@) == secs,
        },
{
    let n = src.len();
    if n < 4 || src[0] != 0 || src[1] != 0x61 || src[2] != 0x73 || src[3] != 0x6d {
        proof {
            if src@.len() >= 4 {
                assert(src@.subrange(0, 4) == spec_magic() ==> src@[0] == 0 && src@[1] == 0x61
                    && src@[2] == 0x73 && src@[3] == 0x6d) by {
                    assert(src@.subrange(0, 4)[0] == src@[0]);
                    assert(src@.subrange(0, 4)[1] == src@[1]);
                    assert(src@.subrange(0, 4)[2] == src@[2]);
                    assert(src@.subrange(0, 4)[3] == src@[3]);
                }
            }
        }
        return Err(ExtractError::InvalidMagic);
    }
    proof {
        assert(src@.subrange(0, 4) =~= spec_magic());
    }
    if n < 8 {
        return Err(ExtractError::Internal("truncated WebAssembly preamble".to_owned()));
    }
    let version: u32 = src[4] as u32 + 0x100 * (src[5] as u32) + 0x10000 * (src[6] as u32)
        + 0x1000000 * (src[7] as u32);
    if version != 1 {
        return Err(ExtractError::UnsupportedVersion(version));
    }

    let mut out: Vec<Section> = Vec::new();
    let mut cur: usize = 8;
    loop
        invariant
            8 <= cur <= n,
            n == src@.len(),
            spec_parse_module(src@) == match spec_sections(src@, cur as int) {
                Some(rest) => SpecParse::Sections(section_views(out@) + rest),
                None => SpecParse::Malformed,
            },
        decreases n - cur,
    {
        if cur == n {
            proof {
                assert(section_views(out@) + Seq::<SpecSection>::empty() =~= section_views(out@));
            }
            return Ok(out);
        }
        let id = src[cur];
        let ghost prev = cur as int;
        match read_leb(src, cur + 1, 5) {
            None => {
                return Err(ExtractError::Internal("truncated section header".to_owned()));
            },
            Some((len64, j)) => {
                if len64 > 0xffff_ffffu64 {
                    return Err(ExtractError::Internal("section size out of range".to_owned()));
                }
                let len = len64 as usize;
                if len > n - j {
                    return Err(ExtractError::Internal("truncated section payload".to_owned()));
                }
                let payload = slice_to_vec(slice_subrange(src, j, j + len));
                let sec = if id == 0 {
                    match parse_custom(payload) {
                        None => {
                            return Err(
                                ExtractError::Internal("malformed custom section".to_owned()),
                            );
                        },
                        Some(sec) => sec,
                    }
                } else {
                    Section { kind: SectionKind::Standard { id }, payload }
                };
                proof {
                    assert(spec_section_body(id, src@.subrange(j as int, j + len)) =~= Some(sec@));
                }
                let ghost old_out = out@;
                out.push(sec);
                cur = j + len;
                proof {
                    assert(spec_sections(src@, prev) == (match spec_sections(src@, cur as int) {
                        Some(rest) => Some(seq![sec@] + rest),
                        None => None::<Seq<SpecSection>>,
                    }));
                    match spec_sections(src@, cur as int) {
                        Some(rest) => {
                            assert(section_views(out@) =~= section_views(old_out) + seq![sec@]);
                            assert((section_views(old_out) + seq![sec@]) + rest =~= section_views(
                                old_out,
                            ) + (seq![sec@] + rest));
                        },
                        None => {},
                    }
                }
            },
        }
    }
}

} // verus!
