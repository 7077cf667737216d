//! GPS support that is not floating point: finding the GPS fields among the
//! extracted tags, cutting their raw values into numbers, the hemisphere
//! letters, and the base-32 encoding of geohashes.

use vstd::prelude::*;
use indexmap::IndexMap;
use crate::exiv2_backend::{merged_entries, ExifTag, ExifTagView};
use crate::tag_map::{
    entries_get, key_index, lemma_key_index_bounds, tag_entries, tag_map_get, tag_map_len,
};
use crate::text::{
    chars_of, find_char, lemma_next_char_bounds, lemma_split_all, next_char, slice_chars,
    split_chars_max, string_of, views, ws_tokens,
};

verus! {

/// Converts and formats GPS coordinates.
pub struct GPSConverter;

/// The raw GPS fields of an image: reference letters and raw values of the
/// latitude and the longitude.
#[derive(Debug, Clone)]
pub struct GpsFields {
    pub lat_ref: String,
    pub lat_raw: String,
    pub lon_ref: String,
    pub lon_raw: String,
}

/// The value stored under `key`, where it is present and not empty.
pub open spec fn non_empty_value(e: Seq<(Seq<char>, ExifTagView)>, key: Seq<char>) -> Option<Seq<char>> {
    match entries_get(e, key) {
        Some(t) => if t.value.len() > 0 {
            Some(t.value)
        } else {
            None
        },
        None => None,
    }
}


/// A GPS field is the raw value that exiv2 printed for its key (the `-pe`
/// column), never the translated text: it is present exactly where the key
/// holds a tag whose raw value is not empty, and it is that raw value.
pub proof fn law_gps_field_is_raw_value(e: Seq<(Seq<char>, ExifTagView)>, key: Seq<char>)
    ensures
        entries_get(e, key) is Some && entries_get(e, key)->0.value.len() > 0 ==> non_empty_value(
            e,
            key,
        ) == Some(entries_get(e, key)->0.value),
        entries_get(e, key) is None || entries_get(e, key)->0.value.len() == 0 ==> non_empty_value(
            e,
            key,
        ) is None,
{
}

proof fn lemma_merged_key_index(
    raw: Seq<(Seq<char>, ExifTagView)>,
    translated: Seq<(Seq<char>, ExifTagView)>,
    k: Seq<char>,
)
    ensures
        key_index(merged_entries(raw, translated), k) == key_index(raw, k),
    decreases raw.len(),
{
    let m = merged_entries(raw, translated);
    if raw.len() > 0 {
        assert(m.drop_last() =~= merged_entries(raw.drop_last(), translated));
        assert(m.last().0 == raw.last().0);
        lemma_merged_key_index(raw.drop_last(), translated, k);
    }
}

/// On an extraction, which merges the translated printout into the raw
/// one, every GPS field is the field of the raw printout alone: the
/// translations never reach the coordinates.
pub proof fn law_gps_fields_of_extraction(
    raw: Seq<(Seq<char>, ExifTagView)>,
    translated: Seq<(Seq<char>, ExifTagView)>,
    key: Seq<char>,
)
    ensures
        non_empty_value(merged_entries(raw, translated), key) == non_empty_value(raw, key),
{
    lemma_merged_key_index(raw, translated, key);
    lemma_key_index_bounds(raw, key);
}

/// The geohash alphabet.
pub const GEOHASH_BASE32: &'static str = "0123456789bcdefghjkmnpqrstuvwxyz";

/// The geohash character of the 5-bit group `b`, most significant first.
pub open spec fn group_char(b: Seq<bool>) -> char {
    GEOHASH_BASE32@[(if b[0] { 16int } else { 0int }) + (if b[1] { 8int } else { 0int }) + (if b[2] {
        4int
    } else {
        0int
    }) + (if b[3] { 2int } else { 0int }) + (if b[4] { 1int } else { 0int })]
}

/// The geohash of a sequence of bisection bits: one character per complete
/// group of five bits, in order.
pub open spec fn geohash_of_bits(bits: Seq<bool>) -> Seq<char>
    decreases bits.len(),
{
    if bits.len() < 5 {
        Seq::empty()
    } else {
        seq![group_char(bits.take(5))] + geohash_of_bits(bits.skip(5))
    }
}

/// The value of the first `n` bits of a group, each at its place in a
/// 5-bit number.
pub open spec fn partial_group(b: Seq<bool>, n: int) -> int
    decreases n,
{
    if n <= 0 {
        0
    } else {
        partial_group(b, n - 1) + if b[n - 1] {
            pow2_at(n - 1)
        } else {
            0
        }
    }
}

/// The place value of bit `j` of a group, most significant first.
pub open spec fn pow2_at(j: int) -> int {
    if j == 0 {
        16
    } else if j == 1 {
        8
    } else if j == 2 {
        4
    } else if j == 3 {
        2
    } else {
        1
    }
}

/// Builds a geohash bit by bit: the caller bisects the longitude and the
/// latitude ranges in turn (the longitude first) and hands in each bit; every
/// fifth bit completes one character.
pub struct GeohashBuilder {
    precision: usize,
    hash: Vec<char>,
    bit: usize,
    ch: usize,
    even: bool,
    bits: Ghost<Seq<bool>>,
}

impl GeohashBuilder {
    /// The bits handed in so far.
    pub closed spec fn bits(&self) -> Seq<bool> {
        self.bits@
    }

    /// The number of characters asked for.
    pub closed spec fn precision(&self) -> nat {
        self.precision as nat
    }

    /// The characters built so far.
    pub closed spec fn chars(&self) -> Seq<char> {
        self.hash@
    }

    /// Well-formed: the characters encode the complete groups of bits, and
    /// the current group holds the rest.
    pub closed spec fn wf(&self) -> bool {
        &&& self.bit < 5
        &&& self.bits@.len() == 5 * self.hash@.len() + self.bit
        &&& self.hash@ == geohash_of_bits(self.bits@)
        &&& self.even == (self.bits@.len() % 2 == 0)
        &&& self.ch == partial_group(self.bits@.skip(5 * self.hash@.len() as int), self.bit as int)
        &&& self.hash@.len() <= self.precision
    }

    /// A builder of a geohash of `precision` characters.
    pub fn new(precision: usize) -> (g: Self)
        ensures
            g.wf(),
            g.precision() == precision,
            g.bits().len() == 0,
    {
        let g = GeohashBuilder {
            precision,
            hash: Vec::new(),
            bit: 0,
            ch: 0,
            even: true,
            bits: Ghost(Seq::empty()),
        };
        assert(g.hash@ =~= geohash_of_bits(Seq::<bool>::empty()));
        g
    }

    /// Whether the geohash has all its characters.
    pub fn is_done(&self) -> (b: bool)
        requires
            self.wf(),
        ensures
            b == (self.bits().len() >= 5 * self.precision()),
    {
        self.hash.len() >= self.precision
    }

    /// Whether the next bit bisects the longitude (else the latitude).
    pub fn next_is_longitude(&self) -> (b: bool)
        requires
            self.wf(),
        ensures
            b == (self.bits().len() % 2 == 0),
    {
        self.even
    }

    /// Hands in the next bit: whether the coordinate lies in the upper half
    /// of its current range.
    pub fn push(&mut self, b: bool)
        requires
            old(self).wf(),
            old(self).bits().len() < 5 * old(self).precision(),
        ensures
            final(self).wf(),
            final(self).bits() == old(self).bits().push(b),
            final(self).precision() == old(self).precision(),
    {
        let ghost old_bits = self.bits@;
        let ghost n: int = self.hash@.len() as int;
        let ghost old_group = old_bits.skip(5 * n);
        proof {
            assert(old_bits =~= old_bits.take(5 * n) + old_group);
            lemma_geohash_of_bits_append(old_bits.take(5 * n), old_group);
            assert(geohash_of_bits(old_group) =~= Seq::<char>::empty());
            assert(geohash_of_bits(old_bits.take(5 * n)) =~= self.hash@);
        }
        let add: usize = if self.bit == 0 {
            16
        } else if self.bit == 1 {
            8
        } else if self.bit == 2 {
            4
        } else if self.bit == 3 {
            2
        } else {
            1
        };
        assert(add == pow2_at(self.bit as int));
        proof {
            lemma_partial_group_bound(old_group, self.bit as int);
        }
        let old_bit = self.bit;
        if b {
            self.ch = self.ch + add;
        }
        self.even = !self.even;
        self.bits = Ghost(old_bits.push(b));
        let ghost group = self.bits@.skip(5 * n);
        proof {
            assert(group =~= old_group.push(b));
            assert(group.take(old_bit as int) =~= old_group.take(old_bit as int));
            lemma_partial_group_prefix(group, old_group, old_bit as int);
            assert(group[old_bit as int] == b);
            assert(self.ch == partial_group(group, old_bit + 1));
            assert(self.bits@ =~= old_bits.take(5 * n) + group);
            lemma_geohash_of_bits_append(old_bits.take(5 * n), group);
        }
        if self.bit < 4 {
            self.bit = self.bit + 1;
            proof {
                assert(geohash_of_bits(group) =~= Seq::<char>::empty());
                assert(self.hash@ =~= geohash_of_bits(self.bits@));
            }
        } else {
            proof {
                lemma_partial_group_char(group);
                reveal_strlit("0123456789bcdefghjkmnpqrstuvwxyz");
            }
            let alphabet = chars_of(GEOHASH_BASE32);
            let c = alphabet[self.ch];
            self.hash.push(c);
            self.bit = 0;
            self.ch = 0;
            proof {
                lemma_geohash_of_bits_extend(old_bits.take(5 * n), group);
                assert(self.hash@ =~= geohash_of_bits(self.bits@));
                assert(self.bits@.skip(5 * (n + 1)) =~= Seq::<bool>::empty());
            }
        }
    }

    /// The geohash built so far.
    pub fn finish(self) -> (s: String)
        requires
            self.wf(),
        ensures
            s@ == geohash_of_bits(self.bits()),
            s@.len() <= self.precision(),
            self.bits().len() >= 5 * self.precision() ==> s@.len() == self.precision(),
    {
        string_of(self.hash.as_slice())
    }
}

pub proof fn lemma_geohash_of_bits_len(bits: Seq<bool>)
    ensures
        geohash_of_bits(bits).len() == bits.len() / 5,
    decreases bits.len(),
{
    if bits.len() >= 5 {
        lemma_geohash_of_bits_len(bits.skip(5));
    }
}

proof fn lemma_partial_group_bound(b: Seq<bool>, n: int)
    requires
        0 <= n <= 5,
    ensures
        0 <= partial_group(b, n) <= (if n == 0 {
            0int
        } else if n == 1 {
            16
        } else if n == 2 {
            24
        } else if n == 3 {
            28
        } else if n == 4 {
            30
        } else {
            31
        }),
    decreases n,
{
    if n > 0 {
        lemma_partial_group_bound(b, n - 1);
    }
}

proof fn lemma_partial_group_prefix(b1: Seq<bool>, b2: Seq<bool>, n: int)
    requires
        0 <= n <= b1.len(),
        n <= b2.len(),
        b1.take(n) == b2.take(n),
    ensures
        partial_group(b1, n) == partial_group(b2, n),
    decreases n,
{
    if n > 0 {
        assert(b1[n - 1] == b1.take(n)[n - 1]);
        assert(b2[n - 1] == b2.take(n)[n - 1]);
        assert(b1.take(n - 1) == b1.take(n).take(n - 1));
        assert(b2.take(n - 1) == b2.take(n).take(n - 1));
        lemma_partial_group_prefix(b1, b2, n - 1);
    }
}

proof fn lemma_partial_group_char(g: Seq<bool>)
    requires
        g.len() == 5,
    ensures
        group_char(g.take(5)) == GEOHASH_BASE32@[partial_group(g, 5)],
        0 <= partial_group(g, 5) < 32,
{
    assert(g.take(5) == g);
    lemma_partial_group_bound(g, 5);
    reveal_with_fuel(partial_group, 6);
}

proof fn lemma_geohash_of_bits_append(prefix: Seq<bool>, rest: Seq<bool>)
    requires
        prefix.len() % 5 == 0,
    ensures
        geohash_of_bits(prefix + rest) == geohash_of_bits(prefix) + geohash_of_bits(rest),
    decreases prefix.len(),
{
    if prefix.len() == 0 {
        assert(prefix + rest =~= rest);
        assert(geohash_of_bits(prefix) =~= Seq::<char>::empty());
        assert(geohash_of_bits(rest) =~= Seq::<char>::empty() + geohash_of_bits(rest));
    } else {
        lemma_geohash_of_bits_append(prefix.skip(5), rest);
        assert((prefix + rest).take(5) == prefix.take(5));
        assert((prefix + rest).skip(5) == prefix.skip(5) + rest);
        assert(geohash_of_bits(prefix + rest) =~= seq![group_char(prefix.take(5))] + (geohash_of_bits(
            prefix.skip(5),
        ) + geohash_of_bits(rest)));
    }
}

proof fn lemma_geohash_of_bits_extend(prefix: Seq<bool>, group: Seq<bool>)
    requires
        prefix.len() % 5 == 0,
        group.len() == 5,
    ensures
        geohash_of_bits(prefix + group) == geohash_of_bits(prefix).push(group_char(group.take(5))),
    decreases prefix.len(),
{
    if prefix.len() == 0 {
        assert(prefix + group =~= group);
        assert(group.skip(5) =~= Seq::<bool>::empty());
        assert(geohash_of_bits(Seq::<bool>::empty()) =~= Seq::<char>::empty());
        assert(geohash_of_bits(group) =~= seq![group_char(group.take(5))]);
    } else {
        lemma_geohash_of_bits_extend(prefix.skip(5), group);
        assert((prefix + group).take(5) == prefix.take(5));
        assert((prefix + group).skip(5) == prefix.skip(5) + group);
    }
}


/// Every character of a geohash is one of the 32 characters of the geohash
/// alphabet, and a geohash has one character per five bits.
pub proof fn law_geohash_alphabet(bits: Seq<bool>)
    ensures
        geohash_of_bits(bits).len() == bits.len() / 5,
        forall|i: int|
            0 <= i < geohash_of_bits(bits).len() ==> GEOHASH_BASE32@.contains(
                #[trigger] geohash_of_bits(bits)[i],
            ),
    decreases bits.len(),
{
    lemma_geohash_of_bits_len(bits);
    if bits.len() >= 5 {
        law_geohash_alphabet(bits.skip(5));
        reveal_strlit("0123456789bcdefghjkmnpqrstuvwxyz");
        let g = bits.take(5);
        lemma_partial_group_char(g);
        let h = geohash_of_bits(bits);
        assert forall|i: int| 0 <= i < h.len() implies GEOHASH_BASE32@.contains(#[trigger] h[i]) by {
            if i == 0 {
                assert(h[0] == group_char(g.take(5)));
                assert(g.take(5) == g);
                assert(GEOHASH_BASE32@[partial_group(g, 5)] == h[0]);
            } else {
                assert(h[i] == geohash_of_bits(bits.skip(5))[i - 1]);
            }
        }
    }
}

impl GPSConverter {
    /// The value stored under `key` in the extracted tags, where it is
    /// present and not empty.
    pub fn get_non_empty_value(exif_data: &IndexMap<String, ExifTag>, key: &str) -> (r: Option<String>)
        ensures
            match r {
                Some(v) => non_empty_value(tag_entries(*exif_data), key@) == Some(v@),
                None => non_empty_value(tag_entries(*exif_data), key@) is None,
            },
    {
        match tag_map_get(exif_data, key) {
            Some(t) => {
                if t.value.as_str().is_empty() {
                    None
                } else {
                    Some(t.value.clone())
                }
            },
            None => None,
        }
    }

    /// The GPS fields of the extracted tags: the latitude and longitude
    /// references and raw values, where all four are present and not
    /// empty.
    pub fn gps_fields(exif_data: &IndexMap<String, ExifTag>) -> (r: Option<GpsFields>)
        ensures
            match r {
                Some(f) => tag_entries(*exif_data).len() > 0 && non_empty_value(
                    tag_entries(*exif_data),
                    "Exif.GPSInfo.GPSLatitudeRef"@,
                ) == Some(f.lat_ref@) && non_empty_value(
                    tag_entries(*exif_data),
                    "Exif.GPSInfo.GPSLatitude"@,
                ) == Some(f.lat_raw@) && non_empty_value(
                    tag_entries(*exif_data),
                    "Exif.GPSInfo.GPSLongitudeRef"@,
                ) == Some(f.lon_ref@) && non_empty_value(
                    tag_entries(*exif_data),
                    "Exif.GPSInfo.GPSLongitude"@,
                ) == Some(f.lon_raw@),
                None => tag_entries(*exif_data).len() == 0 || non_empty_value(
                    tag_entries(*exif_data),
                    "Exif.GPSInfo.GPSLatitudeRef"@,
                ) is None || non_empty_value(tag_entries(*exif_data), "Exif.GPSInfo.GPSLatitude"@)
                    is None || non_empty_value(
                    tag_entries(*exif_data),
                    "Exif.GPSInfo.GPSLongitudeRef"@,
                ) is None || non_empty_value(tag_entries(*exif_data), "Exif.GPSInfo.GPSLongitude"@)
                    is None,
            },
    {
        if tag_map_len(exif_data) == 0 {
            return None;
        }
        let lat_ref = match Self::get_non_empty_value(exif_data, "Exif.GPSInfo.GPSLatitudeRef") {
            Some(v) => v,
            None => return None,
        };
        let lat_raw = match Self::get_non_empty_value(exif_data, "Exif.GPSInfo.GPSLatitude") {
            Some(v) => v,
            None => return None,
        };
        let lon_ref = match Self::get_non_empty_value(exif_data, "Exif.GPSInfo.GPSLongitudeRef") {
            Some(v) => v,
            None => return None,
        };
        let lon_raw = match Self::get_non_empty_value(exif_data, "Exif.GPSInfo.GPSLongitude") {
            Some(v) => v,
            None => return None,
        };
        Some(GpsFields { lat_ref, lat_raw, lon_ref, lon_raw })
    }

    /// The degrees, minutes and seconds tokens of a raw GPS value such as
    /// `43/1 28/1 2814/1000`: its first three whitespace-separated tokens,
    /// where it has at least three.
    pub fn dms_tokens(dms_raw: &str) -> (r: Option<(String, String, String)>)
        ensures
            match r {
                Some(t) => ws_tokens(dms_raw@).len() >= 3 && t.0@ == ws_tokens(dms_raw@)[0] && t.1@
                    == ws_tokens(dms_raw@)[1] && t.2@ == ws_tokens(dms_raw@)[2],
                None => ws_tokens(dms_raw@).len() < 3,
            },
    {
        let v = chars_of(dms_raw);
        let tokens = split_chars_max(&v, v.len());
        proof {
            lemma_split_all(v@);
        }
        if tokens.len() < 3 {
            return None;
        }
        assert(tokens@[0]@ == views(tokens@)[0]);
        assert(tokens@[1]@ == views(tokens@)[1]);
        assert(tokens@[2]@ == views(tokens@)[2]);
        Some(
            (
                string_of(tokens[0].as_slice()),
                string_of(tokens[1].as_slice()),
                string_of(tokens[2].as_slice()),
            ),
        )
    }

    /// A rational token such as `2814/1000` cut at its first `/` into
    /// numerator and denominator (`str::split_once`); a token without `/`
    /// is a plain number.
    pub fn split_rational(token: &str) -> (r: (String, Option<String>))
        ensures
            next_char(token@, 0, '/') < token@.len() ==> (r.1 matches Some(d) && d@ == token@.skip(next_char(token@, 0, '/') + 1)
                && r.0@ == token@.take(next_char(token@, 0, '/'))),
            next_char(token@, 0, '/') >= token@.len() ==> r.0@ == token@ && r.1 is None,
    {
        let v = chars_of(token);
        let i = find_char(&v, 0, '/');
        proof {
            lemma_next_char_bounds(v@, 0, '/');
        }
        if i < v.len() {
            let num = slice_chars(&v, 0, i);
            let den = slice_chars(&v, i + 1, v.len());
            assert(num@ == token@.take(i as int));
            assert(den@ == token@.skip(i + 1));
            (string_of(num.as_slice()), Some(string_of(den.as_slice())))
        } else {
            (token.to_owned(), None)
        }
    }

    /// Whether a GPS reference letter turns the coordinate negative: south
    /// or west, in either case.
    pub fn is_negative_ref(ref_str: &str) -> (b: bool)
        ensures
            b == (ref_str@ == "S"@ || ref_str@ == "s"@ || ref_str@ == "W"@ || ref_str@ == "w"@),
    {
        proof {
            reveal_strlit("S");
            reveal_strlit("s");
            reveal_strlit("W");
            reveal_strlit("w");
        }
        let v = chars_of(ref_str);
        if v.len() != 1 {
            return false;
        }
        let c = v[0];
        assert(v@ =~= seq![c]);
        assert("S"@ =~= seq!['S']);
        assert("s"@ =~= seq!['s']);
        assert("W"@ =~= seq!['W']);
        assert("w"@ =~= seq!['w']);
        c == 'S' || c == 's' || c == 'W' || c == 'w'
    }

    /// The hemisphere letter of a coordinate: N or S for a latitude, E or W
    /// for a longitude, by whether it is at least zero.
    pub fn hemisphere(is_latitude: bool, non_negative: bool) -> (s: &'static str)
        ensures
            s@ == (if is_latitude {
                if non_negative {
                    "N"@
                } else {
                    "S"@
                }
            } else {
                if non_negative {
                    "E"@
                } else {
                    "W"@
                }
            }),
    {
        if is_latitude {
            if non_negative {
                "N"
            } else {
                "S"
            }
        } else {
            if non_negative {
                "E"
            } else {
                "W"
            }
        }
    }
}

} // verus!
