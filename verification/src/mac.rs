//! MAC addresses in text form.

use crate::ip;
use crate::text;
use vstd::prelude::*;

verus! {

/// A group padded on the left with zeros to two characters.
pub open spec fn zero_padded(g: Seq<char>) -> Seq<char> {
    if g.len() == 0 {
        seq!['0', '0']
    } else if g.len() == 1 {
        seq!['0', g[0]]
    } else {
        g
    }
}

/// The zero-padded lowercase groups of a MAC address that `:` or `-`
/// separates.
pub open spec fn mac_groups(mac: Seq<char>) -> Seq<Seq<char>> {
    let f = text::fields(text::replaced(text::lowered(text::trimmed(mac)), '-', ':'), ':');
    Seq::new(f.len(), |i: int| zero_padded(f[i]))
}

/// Whether `g` is two hexadecimal digits.
pub open spec fn is_hex_pair(g: Seq<char>) -> bool {
    g.len() == 2 && text::hex_digit(g[0]) is Some && text::hex_digit(g[1]) is Some
}

/// The normal form of a MAC address: six lowercase, zero-padded groups
/// separated by `:`.
pub open spec fn normal_mac(mac: Seq<char>) -> Option<Seq<char>> {
    let g = mac_groups(mac);
    if g.len() == 6 && forall|i: int| 0 <= i < 6 ==> is_hex_pair(#[trigger] g[i]) {
        Some(text::joined(g, ":"@))
    } else {
        None
    }
}

fn zero_pad(g: &str) -> (r: String)
    ensures
        r@ == zero_padded(g@),
{
    let cs = text::chars_of(g);
    let mut out = String::new();
    if cs.len() == 0 {
        out.push('0');
        out.push('0');
        assert(out@ =~= zero_padded(g@));
        out
    } else if cs.len() == 1 {
        out.push('0');
        out.push(cs[0]);
        assert(out@ =~= zero_padded(g@));
        out
    } else {
        g.to_owned()
    }
}

fn check_hex_pair(g: &str) -> (r: bool)
    ensures
        r == is_hex_pair(g@),
{
    let cs = text::chars_of(g);
    cs.len() == 2 && text::parse_hex_digit(cs[0]).is_some() && text::parse_hex_digit(
        cs[1],
    ).is_some()
}

/// Normalizes a MAC to lowercase, `:`-separated, zero-padded groups (macOS
/// arp prints "a4:2b:b0:1:2:3"). Returns None for non-MAC tokens.
pub fn normalize_mac(mac: &str) -> (r: Option<String>)
    ensures
        r.deep_view() == normal_mac(mac@),
{
    let trimmed = text::trim(mac);
    let lower = text::to_lower(trimmed.as_str());
    let colons = text::replace_char(lower.as_str(), '-', ':');
    let f = text::split_on(colons.as_str(), ':');
    let ghost fv = text::fields(colons@, ':');
    let mut groups: Vec<String> = Vec::new();
    let mut valid = f.len() == 6;
    let mut i: usize = 0;
    while i < f.len()
        invariant
            fv == f.deep_view(),
            i <= f@.len(),
            groups@.len() == i,
            forall|j: int| 0 <= j < i ==> (#[trigger] groups@[j])@ == zero_padded(fv[j]),
            valid == (f@.len() == 6 && forall|j: int|
                0 <= j < i ==> is_hex_pair((#[trigger] groups@[j])@)),
        decreases f@.len() - i,
    {
        let g = zero_pad(f[i].as_str());
        if !check_hex_pair(g.as_str()) {
            valid = false;
        }
        let ghost before = groups@;
        groups.push(g);
        assert(forall|j: int| 0 <= j < i ==> groups@[j] == before[j]);
        assert(groups@[i as int] == g);
        i += 1;
    }
    assert(groups.deep_view() =~= mac_groups(mac@));
    assert(forall|j: int| 0 <= j < groups@.len() ==> (#[trigger] groups@[j])@ == mac_groups(
        mac@,
    )[j]);
    if valid {
        let joined = text::join(&groups, ":");
        assert forall|j: int| 0 <= j < 6 implies is_hex_pair(#[trigger] mac_groups(mac@)[j]) by {
            assert(is_hex_pair(groups@[j]@));
        }
        Some(joined)
    } else {
        proof {
            if groups@.len() == 6 {
                let j = choose|j: int| 0 <= j < 6 && !is_hex_pair((#[trigger] groups@[j])@);
                assert(!is_hex_pair(mac_groups(mac@)[j]));
            }
        }
        None
    }
}

/// The vendor prefix of a MAC address: the first three groups of its normal
/// form.
pub open spec fn oui_text(mac: Seq<char>) -> Option<Seq<char>> {
    match normal_mac(mac) {
        Some(m) => Some(m.take(8)),
        None => None,
    }
}

/// OUI prefix (first 3 bytes) used as the vendor cache key.
pub fn oui_of(mac: &str) -> (r: Option<String>)
    ensures
        r.deep_view() == oui_text(mac@),
{
    match normalize_mac(mac) {
        Some(m) => {
            proof {
                law_normal_mac_shape(mac@);
            }
            let cs = text::chars_of(m.as_str());
            let prefix = text::string_of(vstd::slice::slice_subrange(cs.as_slice(), 0, 8));
            assert(prefix@ =~= m@.take(8));
            Some(prefix)
        },
        None => None,
    }
}

/// Whether `c` is a decimal digit or a lowercase letter from `a` to `f`.
pub open spec fn is_lower_hex(c: char) -> bool {
    '0' <= c <= '9' || 'a' <= c <= 'f'
}

/// Whether `m` is in normal form.
pub open spec fn is_normal_mac(m: Seq<char>) -> bool {
    &&& m.len() == 17
    &&& forall|i: int|
        0 <= i < 17 ==> if i % 3 == 2 {
            #[trigger] m[i] == ':'
        } else {
            is_lower_hex(m[i])
        }
}

proof fn lemma_group_is_lower(mac: Seq<char>, i: int)
    requires
        0 <= i < mac_groups(mac).len(),
        is_hex_pair(mac_groups(mac)[i]),
    ensures
        is_lower_hex(mac_groups(mac)[i][0]),
        is_lower_hex(mac_groups(mac)[i][1]),
{
    let s = text::replaced(text::lowered(text::trimmed(mac)), '-', ':');
    let f = text::fields(s, ':');
    assert forall|k: int| 0 <= k < s.len() implies !('A' <= #[trigger] s[k] <= 'Z') by {}
    lemma_field_chars(s, ':', i);
    let g = f[i];
    assert(forall|k: int| 0 <= k < g.len() ==> s.contains(#[trigger] g[k]));
}

proof fn lemma_field_chars(s: Seq<char>, c: char, i: int)
    requires
        0 <= i < text::fields(s, c).len(),
    ensures
        forall|k: int|
            0 <= k < text::fields(s, c)[i].len() ==> s.contains(
                #[trigger] text::fields(s, c)[i][k],
            ),
    decreases s.len(),
{
    let n = text::find_char(s, c) as int;
    text::lemma_find_char(s, c);
    let f = text::fields(s, c);
    if n >= s.len() {
    } else if i == 0 {
        assert forall|k: int| 0 <= k < f[0].len() implies s.contains(#[trigger] f[0][k]) by {
            assert(f[0][k] == s[k]);
        }
    } else {
        let rest = s.skip(n + 1);
        lemma_field_chars(rest, c, i - 1);
        assert(f[i] == text::fields(rest, c)[i - 1]);
        assert forall|k: int| 0 <= k < f[i].len() implies s.contains(#[trigger] f[i][k]) by {
            assert(rest.contains(text::fields(rest, c)[i - 1][k]));
            let j = choose|j: int| 0 <= j < rest.len() && rest[j] == f[i][k];
            assert(s[n + 1 + j] == rest[j]);
        }
    }
}

/// The normal form has seventeen characters: lowercase hexadecimal pairs with
/// `:` between them.
pub proof fn law_normal_mac_shape(mac: Seq<char>)
    requires
        normal_mac(mac) is Some,
    ensures
        is_normal_mac(normal_mac(mac)->0),
{
    let g = mac_groups(mac);
    let m = normal_mac(mac)->0;
    lemma_six_joined(g);
    assert forall|i: int| 0 <= i < 17 implies if i % 3 == 2 {
        #[trigger] m[i] == ':'
    } else {
        is_lower_hex(m[i])
    } by {
        assert(is_hex_pair(g[i / 3]));
        lemma_group_is_lower(mac, i / 3);
    }
}

/// Six pairs joined with `:` stand at every third position.
proof fn lemma_six_joined(g: Seq<Seq<char>>)
    requires
        g.len() == 6,
        forall|i: int| 0 <= i < 6 ==> (#[trigger] g[i]).len() == 2,
    ensures
        text::joined(g, ":"@).len() == 17,
        forall|i: int|
            0 <= i < 17 ==> #[trigger] text::joined(g, ":"@)[i] == (if i % 3 == 2 {
                ':'
            } else {
                g[i / 3][i % 3]
            }),
{
    reveal_strlit(":");
    reveal_with_fuel(text::joined, 7);
    let c = ":"@;
    assert(c =~= seq![':']);
    let g5 = g.drop_last();
    let g4 = g5.drop_last();
    let g3 = g4.drop_last();
    let g2 = g3.drop_last();
    let g1 = g2.drop_last();
    assert(text::joined(g, c) =~= g[0] + c + g[1] + c + g[2] + c + g[3] + c + g[4] + c + g[5]);
}

/// Normalizing a normal form changes nothing.
pub proof fn law_normalize_idempotent(mac: Seq<char>)
    requires
        normal_mac(mac) is Some,
    ensures
        normal_mac(normal_mac(mac)->0) == normal_mac(mac),
{
    let m = normal_mac(mac)->0;
    let g = mac_groups(mac);
    law_normal_mac_shape(mac);
    assert(m[0] == m[0] && m[16] == m[16]);
    assert(text::trimmed(m) =~= m);
    assert(text::lowered(m) =~= m);
    assert(text::replaced(m, '-', ':') =~= m);
    reveal_strlit(":");
    assert(":"@ =~= seq![':']);
    assert forall|i: int| 0 <= i < 6 implies !(#[trigger] g[i]).contains(':') by {
        assert(is_hex_pair(g[i]));
        lemma_group_is_lower(mac, i);
    }
    text::lemma_fields_joined(g, ':');
    assert(mac_groups(m) =~= g);
}

/// The number that a MAC address in normal form denotes.
pub open spec fn mac_number(m: Seq<char>) -> u64 {
    (pair_number(m, 0) * 0x100_0000_0000 + pair_number(m, 3) * 0x1_0000_0000 + pair_number(m, 6)
        * 0x100_0000 + pair_number(m, 9) * 0x1_0000 + pair_number(m, 12) * 0x100 + pair_number(
        m,
        15,
    )) as u64
}

/// The number that the two hexadecimal digits at position `i` denote.
pub open spec fn pair_number(m: Seq<char>, i: int) -> nat {
    match ip::hex_value(m.subrange(i, i + 2)) {
        Some(v) => v,
        None => 0,
    }
}

// ------------------------------------------------------ What MAC addresses are

proof fn lemma_mapped_parts(parts: Seq<Seq<char>>, sep: Seq<char>, f: spec_fn(char) -> char)
    ensures
        text::joined(parts, sep).map_values(f) == text::joined(
            Seq::new(parts.len(), |i: int| parts[i].map_values(f)),
            sep.map_values(f),
        ),
    decreases parts.len(),
{
    let mapped = Seq::new(parts.len(), |i: int| parts[i].map_values(f));
    if parts.len() == 0 {
        assert(text::joined(parts, sep).map_values(f) =~= text::joined(mapped, sep.map_values(f)));
    } else if parts.len() > 1 {
        let front = parts.drop_last();
        lemma_mapped_parts(front, sep, f);
        assert(mapped.drop_last() =~= Seq::new(front.len(), |i: int| front[i].map_values(f)));
        assert(text::joined(parts, sep).map_values(f) =~= text::joined(front, sep).map_values(f)
            + sep.map_values(f) + parts.last().map_values(f));
    }
}

/// Six groups of up to two hexadecimal digits, in either case and with colons or
/// hyphens between them, are a MAC address. In its normal form each group has
/// its own digits in lower case, with zeros in the place of those it lacks, and
/// colons stand between the groups.
pub proof fn law_mac_is_read(g: Seq<Seq<char>>, sep: char)
    requires
        g.len() == 6,
        sep == ':' || sep == '-',
        forall|i: int|
            0 <= i < 6 ==> (#[trigger] g[i]).len() <= 2 && (forall|j: int|
                0 <= j < g[i].len() ==> text::hex_digit(#[trigger] g[i][j]) is Some),
    ensures
        normal_mac(text::joined(g, seq![sep])) is Some,
        normal_mac(text::joined(g, seq![sep]))->0.len() == 17,
        forall|i: int|
            0 <= i < 17 && i % 3 == 2 ==> #[trigger] normal_mac(text::joined(g, seq![sep]))->0[i]
                == ':',
        forall|i: int|
            0 <= i < 6 ==> {
                let m = normal_mac(text::joined(g, seq![sep]))->0;
                let d = #[trigger] g[i];
                &&& m[3 * i + 1] == (if d.len() > 0 {
                    text::lower_char(d.last())
                } else {
                    '0'
                })
                &&& m[3 * i] == (if d.len() == 2 {
                    text::lower_char(d[0])
                } else {
                    '0'
                })
            },
{
    let s = text::joined(g, seq![sep]);
    let none = Seq::<char>::empty();
    let first = g[0];
    let last = g[5];
    assert(first.len() <= 2 && last.len() <= 2);
    assert(first.len() > 0 ==> text::hex_digit(first[0]) is Some);
    assert(last.len() > 0 ==> text::hex_digit(last[last.len() - 1]) is Some);
    assert(g =~= seq![first] + g.skip(1));
    text::law_joined_first(first, g.skip(1), seq![sep]);
    assert(s[0] == (if first.len() > 0 {
        first[0]
    } else {
        sep
    }));
    assert(s == text::joined(g.drop_last(), seq![sep]) + seq![sep] + last);
    assert(s.last() == (if last.len() > 0 {
        last[last.len() - 1]
    } else {
        sep
    }));
    text::law_trimmed(none, s, none);
    assert(none + s + none =~= s);
    let f = |c: char|
        if text::lower_char(c) == '-' {
            ':'
        } else {
            text::lower_char(c)
        };
    let r = text::replaced(text::lowered(s), '-', ':');
    assert(r =~= s.map_values(f));
    lemma_mapped_parts(g, seq![sep], f);
    let parts = Seq::new(g.len(), |i: int| g[i].map_values(f));
    assert(seq![sep].map_values(f) =~= seq![':']);
    assert forall|i: int| 0 <= i < parts.len() implies !(#[trigger] parts[i]).contains(':') by {
        assert(g[i].len() <= 2);
        assert forall|j: int| 0 <= j < parts[i].len() implies parts[i][j] != ':' by {
            assert(text::hex_digit(g[i][j]) is Some);
            assert(parts[i][j] == f(g[i][j]));
        }
    }
    text::lemma_fields_joined(parts, ':');
    let groups = mac_groups(s);
    assert(groups.len() == 6);
    assert forall|i: int| 0 <= i < 6 implies is_hex_pair(#[trigger] groups[i]) && groups[i][1] == (
    if g[i].len() > 0 {
        text::lower_char(g[i].last())
    } else {
        '0'
    }) && groups[i][0] == (if g[i].len() == 2 {
        text::lower_char(g[i][0])
    } else {
        '0'
    }) by {
        let d = g[i];
        assert(d.len() <= 2);
        assert(groups[i] == zero_padded(parts[i]));
        if d.len() > 0 {
            assert(text::hex_digit(d[0]) is Some);
            assert(text::hex_digit(d[d.len() - 1]) is Some);
            assert(parts[i][0] == f(d[0]));
            assert(parts[i][d.len() - 1] == f(d[d.len() - 1]));
        }
    }
    assert forall|i: int| 0 <= i < 6 implies (#[trigger] groups[i]).len() == 2 by {
        assert(is_hex_pair(groups[i]));
    }
    lemma_six_joined(groups);
    let m = normal_mac(s)->0;
    assert(m == text::joined(groups, ":"@));
    assert forall|i: int| 0 <= i < 6 implies ({
        let d = #[trigger] g[i];
        &&& m[3 * i + 1] == (if d.len() > 0 {
            text::lower_char(d.last())
        } else {
            '0'
        })
        &&& m[3 * i] == (if d.len() == 2 {
            text::lower_char(d[0])
        } else {
            '0'
        })
    }) by {
        assert((3 * i + 1) % 3 == 1 && (3 * i + 1) / 3 == i);
        assert((3 * i) % 3 == 0 && (3 * i) / 3 == i);
        assert(is_hex_pair(groups[i]));
    }
}

/// White space around a MAC address changes nothing.
pub proof fn law_mac_is_trimmed(a: Seq<char>, mac: Seq<char>, b: Seq<char>)
    requires
        text::all_space(a),
        text::all_space(b),
        mac.len() == 0 || !text::is_space(mac[0]) && !text::is_space(mac.last()),
    ensures
        normal_mac(a + mac + b) == normal_mac(mac),
        oui_text(a + mac + b) == oui_text(mac),
{
    let none = Seq::<char>::empty();
    text::law_trimmed(a, mac, b);
    text::law_trimmed(none, mac, none);
    assert(none + mac + none =~= mac);
}

/// A text with another number of groups than six is no MAC address, and neither
/// is one with anything in it that is no hexadecimal digit, or with three digits
/// in a group.
pub proof fn law_other_texts_are_no_macs(g: Seq<Seq<char>>, i: int, j: int)
    requires
        g.len() > 0,
        forall|k: int|
            0 <= k < g.len() ==> !(#[trigger] g[k]).contains(':') && !g[k].contains('-') && g[k].len()
                > 0 && !text::is_space(g[k][0]) && !text::is_space(g[k].last()),
        g.len() != 6 || (0 <= i < 6 && (g[i].len() > 2 || (0 <= j < g[i].len() && text::hex_digit(
            g[i][j],
        ) is None))),
    ensures
        normal_mac(text::joined(g, seq![':'])) is None,
{
    let sep = seq![':'];
    let s = text::joined(g, sep);
    let none = Seq::<char>::empty();
    let n = g.len() - 1;
    let first = g[0];
    let last = g[n];
    assert(first.len() > 0 && last.len() > 0);
    assert(g =~= seq![first] + g.skip(1));
    text::law_joined_first(first, g.skip(1), sep);
    assert(s[0] == first[0]);
    assert(s.last() == last.last());
    text::law_trimmed(none, s, none);
    assert(none + s + none =~= s);
    let f = |c: char|
        if text::lower_char(c) == '-' {
            ':'
        } else {
            text::lower_char(c)
        };
    let r = text::replaced(text::lowered(s), '-', ':');
    assert(r =~= s.map_values(f));
    lemma_mapped_parts(g, sep, f);
    let parts = Seq::new(g.len(), |k: int| g[k].map_values(f));
    assert(sep.map_values(f) =~= sep);
    assert forall|k: int| 0 <= k < parts.len() implies !(#[trigger] parts[k]).contains(':') by {
        assert(!g[k].contains(':') && !g[k].contains('-'));
        assert forall|x: int| 0 <= x < parts[k].len() implies parts[k][x] != ':' by {
            assert(g[k].contains(g[k][x]));
            assert(parts[k][x] == f(g[k][x]));
        }
    }
    text::lemma_fields_joined(parts, ':');
    let groups = mac_groups(s);
    assert(groups.len() == g.len());
    if g.len() == 6 {
        assert(groups[i] == zero_padded(parts[i]));
        assert(!g[i].contains('-'));
        if g[i].len() <= 2 {
            assert(g[i].contains(g[i][j]));
            assert(parts[i][j] == text::lower_char(g[i][j]));
        }
        assert(!is_hex_pair(groups[i]));
    }
}

/// The prefix that names a vendor is the first three groups of the normal form;
/// what is no MAC address has none.
pub proof fn law_prefix_is_three_groups(mac: Seq<char>)
    ensures
        oui_text(mac) is Some <==> normal_mac(mac) is Some,
        normal_mac(mac) matches Some(m) ==> {
            &&& oui_text(mac)->0.len() == 8
            &&& forall|i: int| 0 <= i < 8 ==> #[trigger] oui_text(mac)->0[i] == m[i]
        },
{
    if normal_mac(mac) is Some {
        law_normal_mac_shape(mac);
    }
}

proof fn lemma_pair_number(m: Seq<char>, i: int)
    requires
        0 <= i,
        i + 2 <= m.len(),
        text::hex_digit(m[i]) is Some,
        text::hex_digit(m[i + 1]) is Some,
    ensures
        pair_number(m, i) == 16 * text::hex_digit(m[i])->0 + text::hex_digit(m[i + 1])->0,
        pair_number(m, i) < 256,
{
    let p = m.subrange(i, i + 2);
    let none = Seq::<char>::empty();
    assert(p =~= none.push(m[i]).push(m[i + 1]));
    ip::law_hex_is_positional(none, m[i]);
    ip::law_hex_is_positional(none.push(m[i]), m[i + 1]);
}

/// The number of a MAC address has its six pairs of digits as bytes, the first
/// the highest.
pub proof fn law_mac_number_is_positional(m: Seq<char>)
    requires
        is_normal_mac(m),
    ensures
        mac_number(m) == (16 * text::hex_digit(m[0])->0 + text::hex_digit(m[1])->0)
            * 0x100_0000_0000 + (16 * text::hex_digit(m[3])->0 + text::hex_digit(m[4])->0)
            * 0x1_0000_0000 + (16 * text::hex_digit(m[6])->0 + text::hex_digit(m[7])->0)
            * 0x100_0000 + (16 * text::hex_digit(m[9])->0 + text::hex_digit(m[10])->0) * 0x1_0000
            + (16 * text::hex_digit(m[12])->0 + text::hex_digit(m[13])->0) * 0x100 + (16
            * text::hex_digit(m[15])->0 + text::hex_digit(m[16])->0),
{
    assert(is_lower_hex(m[0]) && is_lower_hex(m[1]));
    assert(is_lower_hex(m[3]) && is_lower_hex(m[4]));
    assert(is_lower_hex(m[6]) && is_lower_hex(m[7]));
    assert(is_lower_hex(m[9]) && is_lower_hex(m[10]));
    assert(is_lower_hex(m[12]) && is_lower_hex(m[13]));
    assert(is_lower_hex(m[15]) && is_lower_hex(m[16]));
    lemma_pair_number(m, 0);
    lemma_pair_number(m, 3);
    lemma_pair_number(m, 6);
    lemma_pair_number(m, 9);
    lemma_pair_number(m, 12);
    lemma_pair_number(m, 15);
}

/// Hyphens and colons may be mixed, and capital and small letters too: a MAC
/// address is read as if it had colons and small letters only.
pub proof fn law_mac_separators_and_case(s: Seq<char>)
    requires
        s.len() > 0,
        !text::is_space(s[0]) && !text::is_space(s.last()),
    ensures
        normal_mac(s) == normal_mac(text::replaced(s, '-', ':')),
        normal_mac(s) == normal_mac(text::lowered(s)),
{
    let none = Seq::<char>::empty();
    let r = text::replaced(s, '-', ':');
    let l = text::lowered(s);
    assert(none + s + none =~= s);
    assert(none + r + none =~= r);
    assert(none + l + none =~= l);
    text::law_trimmed(none, s, none);
    text::law_trimmed(none, r, none);
    text::law_trimmed(none, l, none);
    assert(text::replaced(text::lowered(r), '-', ':') =~= text::replaced(
        text::lowered(s),
        '-',
        ':',
    ));
    assert(text::lowered(l) =~= l);
}

} // verus!
