use vstd::prelude::*;

verus! {

/// The big-endian 16-bit number at byte `at` of `d`.
pub open spec fn be_u16(d: Seq<u8>, at: int) -> int {
    d[at] * 256 + d[at + 1]
}

/// The big-endian 32-bit number at byte `at` of `d`.
pub open spec fn be_u32(d: Seq<u8>, at: int) -> int {
    be_u16(d, at) * 65536 + be_u16(d, at + 2)
}

/// The bytes start with the signature of a single TrueType or OpenType font.
pub open spec fn has_font_signature(d: Seq<u8>) -> bool {
    &&& d.len() >= 4
    &&& {
        ||| be_u32(d, 0) == 0x3100_0000
        ||| be_u32(d, 0) == 0x7479_7031
        ||| be_u32(d, 0) == 0x4f54_544f
        ||| be_u32(d, 0) == 0x0001_0000
    }
}

/// Looking up the table `tag` in the table directory from entry `i` on, out of `n` entries:
/// the offset of the first entry with that tag (0 when there is none), or `None` when the
/// lookup reads past the end of the bytes.
pub open spec fn scan_table(d: Seq<u8>, tag: int, i: int, n: int) -> Option<int>
    decreases n - i,
{
    if i >= n {
        Some(0)
    } else {
        let loc = 12 + 16 * i;
        if loc + 4 > d.len() {
            None
        } else if be_u32(d, loc) == tag {
            if loc + 12 > d.len() {
                None
            } else {
                Some(be_u32(d, loc + 8))
            }
        } else {
            scan_table(d, tag, i + 1, n)
        }
    }
}

/// Looking up the table `tag` of the font at the start of the bytes (see `scan_table`).
pub open spec fn find_table_spec(d: Seq<u8>, tag: int) -> Option<int> {
    if d.len() < 6 {
        None
    } else {
        scan_table(d, tag, 0, be_u16(d, 4))
    }
}

/// Choosing the character map among the encoding records `i` to `m` of the `cmap` table at
/// offset `cmap`, `found` being the choice so far: the last Unicode record (platform 0, or
/// platform 3 with encoding 1 or 10) gives its subtable. `None` when the search reads past
/// the end of the bytes or an offset passes 32 bits.
pub open spec fn cmap_scan(d: Seq<u8>, cmap: int, i: int, m: int, found: int) -> Option<int>
    decreases m - i,
{
    if i >= m {
        Some(found)
    } else {
        let r = cmap + 4 + 8 * i;
        if r > 0xffff_ffff || r + 2 > d.len() {
            None
        } else {
            let pid = be_u16(d, r);
            if pid == 3 {
                if r + 4 > d.len() {
                    None
                } else if be_u16(d, r + 2) == 1 || be_u16(d, r + 2) == 10 {
                    if r + 8 > d.len() || cmap + be_u32(d, r + 4) > 0xffff_ffff {
                        None
                    } else {
                        cmap_scan(d, cmap, i + 1, m, cmap + be_u32(d, r + 4))
                    }
                } else {
                    cmap_scan(d, cmap, i + 1, m, found)
                }
            } else if pid == 0 {
                if r + 8 > d.len() || cmap + be_u32(d, r + 4) > 0xffff_ffff {
                    None
                } else {
                    cmap_scan(d, cmap, i + 1, m, cmap + be_u32(d, r + 4))
                }
            } else {
                cmap_scan(d, cmap, i + 1, m, found)
            }
        }
    }
}

/// The reads that rusttype's parser makes of a font's tables, up to the point where it
/// returns, stay within the bytes and offsets within 32 bits.
pub open spec fn font_tables_readable(d: Seq<u8>) -> bool {
    let cmap = find_table_spec(d, 0x636d_6170);
    let loca = find_table_spec(d, 0x6c6f_6361);
    let head = find_table_spec(d, 0x6865_6164);
    let glyf = find_table_spec(d, 0x676c_7966);
    let hhea = find_table_spec(d, 0x6868_6561);
    let hmtx = find_table_spec(d, 0x686d_7478);
    let name = find_table_spec(d, 0x6e61_6d65);
    let kern = find_table_spec(d, 0x6b65_726e);
    &&& cmap is Some && loca is Some && head is Some && glyf is Some
    &&& hhea is Some && hmtx is Some && name is Some && kern is Some
    &&& (cmap->0 == 0 || loca->0 == 0 || head->0 == 0 || glyf->0 == 0 || hhea->0 == 0
        || hmtx->0 == 0) || {
        let maxp = find_table_spec(d, 0x6d61_7870);
        let c = cmap->0;
        &&& maxp is Some
        &&& (maxp->0 == 0 || maxp->0 + 6 <= d.len())
        &&& c + 4 <= d.len()
        &&& cmap_scan(d, c, 0, be_u16(d, c + 2), 0) is Some
        &&& (cmap_scan(d, c, 0, be_u16(d, c + 2), 0)->0 == 0 || head->0 + 52 <= d.len())
    }
}

/// rusttype parses the bytes without reading past their end: they either lack a font
/// signature (and are refused at once) or their tables are readable.
pub open spec fn font_data_readable(d: Seq<u8>) -> bool {
    !has_font_signature(d) || font_tables_readable(d)
}

fn read_u16_at(d: &Vec<u8>, at: u64) -> (r: u64)
    requires
        at + 2 <= d@.len(),
    ensures
        r == be_u16(d@, at as int),
        r <= 0xffff,
{
    let n = d.len();
    assert(at + 1 < n);
    let hi = d[at as usize] as u64;
    let lo = d[(at + 1) as usize] as u64;
    hi * 256 + lo
}

fn read_u32_at(d: &Vec<u8>, at: u64) -> (r: u64)
    requires
        at + 4 <= d@.len(),
    ensures
        r == be_u32(d@, at as int),
        r <= 0xffff_ffff,
{
    let n = d.len();
    assert(at + 4 <= n);
    let hi = read_u16_at(d, at);
    let lo = read_u16_at(d, at + 2);
    assert(hi * 65536 + lo <= 0xffff_ffff) by (nonlinear_arith)
        requires
            hi <= 0xffff,
            lo <= 0xffff,
    ;
    hi * 65536 + lo
}

/// Looks up table `tag` as rusttype does (see `find_table_spec`).
fn find_table(d: &Vec<u8>, tag: u64) -> (r: Option<u64>)
    ensures
        (r is Some) == (find_table_spec(d@, tag as int) is Some),
        r matches Some(x) ==> find_table_spec(d@, tag as int) == Some(x as int),
        r matches Some(x) ==> x <= 0xffff_ffff,
{
    let len = d.len() as u64;
    if len < 6 {
        return None;
    }
    let n = read_u16_at(d, 4);
    let mut i: u64 = 0;
    while i < n
        invariant
            len == d@.len(),
            len >= 6,
            n == be_u16(d@, 4),
            n <= 0xffff,
            i <= n,
            scan_table(d@, tag as int, 0, n as int) == scan_table(d@, tag as int, i as int, n as int),
        decreases n - i,
    {
        let loc = 12 + 16 * i;
        if loc + 4 > len {
            return None;
        }
        if read_u32_at(d, loc) == tag {
            if loc + 12 > len {
                return None;
            }
            return Some(read_u32_at(d, loc + 8));
        }
        i = i + 1;
    }
    Some(0)
}

/// Chooses the character map as rusttype does (see `cmap_scan`).
fn find_cmap(d: &Vec<u8>, cmap: u64, m: u64) -> (r: Option<u64>)
    requires
        cmap <= 0xffff_ffff,
        m <= 0xffff,
    ensures
        (r is Some) == (cmap_scan(d@, cmap as int, 0, m as int, 0) is Some),
        r matches Some(x) ==> cmap_scan(d@, cmap as int, 0, m as int, 0) == Some(x as int),
{
    let len = d.len() as u64;
    let mut found: u64 = 0;
    let mut i: u64 = 0;
    while i < m
        invariant
            len == d@.len(),
            cmap <= 0xffff_ffff,
            m <= 0xffff,
            i <= m,
            found <= 0xffff_ffff,
            cmap_scan(d@, cmap as int, 0, m as int, 0) == cmap_scan(
                d@,
                cmap as int,
                i as int,
                m as int,
                found as int,
            ),
        decreases m - i,
    {
        let r = cmap + 4 + 8 * i;
        if r > 0xffff_ffff || r + 2 > len {
            return None;
        }
        let pid = read_u16_at(d, r);
        if pid == 3 {
            if r + 4 > len {
                return None;
            }
            let eid = read_u16_at(d, r + 2);
            if eid == 1 || eid == 10 {
                if r + 8 > len {
                    return None;
                }
                let sub = cmap + read_u32_at(d, r + 4);
                if sub > 0xffff_ffff {
                    return None;
                }
                found = sub;
            }
        } else if pid == 0 {
            if r + 8 > len {
                return None;
            }
            let sub = cmap + read_u32_at(d, r + 4);
            if sub > 0xffff_ffff {
                return None;
            }
            found = sub;
        }
        i = i + 1;
    }
    Some(found)
}

/// Whether rusttype can parse `font_data` without reading past its end (see
/// `font_data_readable`); `parse_font` needs this.
pub fn font_data_is_readable(font_data: &Vec<u8>) -> (r: bool)
    ensures
        r == font_data_readable(font_data@),
{
    let d = font_data;
    let len = d.len() as u64;
    if len < 4 {
        return true;
    }
    let sig = read_u32_at(d, 0);
    if !(sig == 0x3100_0000 || sig == 0x7479_7031 || sig == 0x4f54_544f || sig == 0x0001_0000) {
        return true;
    }
    let cmap = find_table(d, 0x636d_6170);
    let loca = find_table(d, 0x6c6f_6361);
    let head = find_table(d, 0x6865_6164);
    let glyf = find_table(d, 0x676c_7966);
    let hhea = find_table(d, 0x6868_6561);
    let hmtx = find_table(d, 0x686d_7478);
    let name = find_table(d, 0x6e61_6d65);
    let kern = find_table(d, 0x6b65_726e);
    match (cmap, loca, head, glyf, hhea, hmtx, name, kern) {
        (Some(c), Some(l), Some(h), Some(g), Some(hh), Some(hm), Some(_), Some(_)) => {
            if c == 0 || l == 0 || h == 0 || g == 0 || hh == 0 || hm == 0 {
                return true;
            }
            match find_table(d, 0x6d61_7870) {
                Some(t) => {
                    if t != 0 && t + 6 > len {
                        return false;
                    }
                },
                None => {
                    return false;
                },
            }
            if c + 4 > len {
                return false;
            }
            let m = read_u16_at(d, c + 2);
            match find_cmap(d, c, m) {
                Some(found) => found == 0 || h + 52 <= len,
                None => false,
            }
        },
        _ => false,
    }
}

#[verifier::external_type_specification]
#[verifier::external_body]
pub struct ExFont<'a>(rusttype::Font<'a>);

/// Whether `bytes` hold exactly one font that rusttype supports.
pub uninterp spec fn font_parses(bytes: Seq<u8>) -> bool;

/// Calls `FontCollection::from_bytes(bytes).into_font()` of rusttype. Claimed: the result is
/// `Some` exactly when `font_parses` holds of the bytes; the font itself is opaque. Required:
/// the bytes are readable (`font_data_readable`), since the parser indexes the bytes at the
/// offsets the font's tables give without checking them, and panics past their end.
#[verifier::external_body]
fn into_font(bytes: Vec<u8>) -> (r: Option<rusttype::Font<'static>>)
    requires
        font_data_readable(bytes@),
    ensures
        r is Some == font_parses(bytes@),
{
    rusttype::FontCollection::from_bytes(bytes).into_font()
}

/// The font held by the bytes of a font file: `Some` exactly when they hold one font that
/// rusttype supports.
pub fn parse_font(font_data: Vec<u8>) -> (r: Option<rusttype::Font<'static>>)
    requires
        font_data_readable(font_data@),
    ensures
        r is Some == font_parses(font_data@),
{
    into_font(font_data)
}

} // verus!
