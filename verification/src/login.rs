//! The login handshake: parsing the request body of a login attempt.
//!
//! A login body is plain text: four newline-separated fields, of which the
//! third is a `|`-separated client block whose fourth sub-field is a
//! `:`-separated list of client hashes. A wrong count at any of the three
//! stages rejects the body as malformed.
use vstd::prelude::*;
use vstd::string::StrSliceExecFns;

verus! {

/// Splitting a character sequence on a separator, the way `str::split`
/// does: the empty sequence has one empty field, and a separator at either
/// end contributes an empty field beside it.
pub open spec fn spec_split(s: Seq<char>, sep: char) -> Seq<Seq<char>>
    decreases s.len(),
{
    if s.len() == 0 {
        seq![Seq::<char>::empty()]
    } else if s[0] == sep {
        seq![Seq::<char>::empty()] + spec_split(s.skip(1), sep)
    } else {
        let r = spec_split(s.skip(1), sep);
        seq![seq![s[0]] + r[0]] + r.skip(1)
    }
}

/// Splitting always yields at least one field.
pub proof fn lemma_spec_split_len(s: Seq<char>, sep: char)
    ensures
        spec_split(s, sep).len() >= 1,
    decreases s.len(),
{
    if s.len() != 0 && s[0] == sep {
        lemma_spec_split_len(s.skip(1), sep);
    } else if s.len() != 0 {
        lemma_spec_split_len(s.skip(1), sep);
    }
}

/// The first field of a partially consumed split, with `prefix` the
/// separator-free characters already passed, joined back on.
pub open spec fn split_adjust(prefix: Seq<char>, r: Seq<Seq<char>>) -> Seq<Seq<char>>
    recommends
        r.len() >= 1,
{
    seq![prefix + r[0]] + r.skip(1)
}

/// Splits a string on a separator character, exactly as [`spec_split`]
/// describes.
pub fn split_str(s: &str, sep: char) -> (r: Vec<String>)
    ensures
        r.deep_view() == spec_split(s@, sep),
{
    let n = s.unicode_len();
    let mut fields: Vec<String> = Vec::new();
    let mut start: usize = 0;
    let mut i: usize = 0;
    proof {
        lemma_spec_split_len(s@, sep);
        assert(s@.skip(0) =~= s@);
        assert(s@.subrange(0, 0) =~= Seq::<char>::empty());
        assert(split_adjust(s@.subrange(0, 0), spec_split(s@, sep)) =~~= spec_split(s@, sep));
    }
    while i < n
        invariant
            start <= i <= n,
            n == s@.len(),
            spec_split(s@, sep) == fields.deep_view() + split_adjust(
                s@.subrange(start as int, i as int),
                spec_split(s@.skip(i as int), sep),
            ),
        decreases n - i,
    {
        let ghost pref = s@.subrange(start as int, i as int);
        let ghost tail = spec_split(s@.skip(i as int), sep);
        let ghost tail1 = spec_split(s@.skip(i + 1), sep);
        proof {
            lemma_spec_split_len(s@.skip(i + 1), sep);
            assert(s@.skip(i as int)[0] == s@[i as int]);
            assert(s@.skip(i as int).skip(1) =~= s@.skip(i + 1));
        }
        let c = s.get_char(i);
        if c == sep {
            let field = s.substring_char(start, i).to_owned();
            let ghost pre_fields = fields.deep_view();
            proof {
                assert(field@ == pref);
                assert(tail =~~= seq![Seq::<char>::empty()] + tail1);
                assert(split_adjust(pref, tail) =~~= seq![pref] + tail1);
            }
            fields.push(field);
            start = i + 1;
            proof {
                assert(fields.deep_view() =~~= pre_fields.push(pref));
                assert(s@.subrange(start as int, i + 1) =~= Seq::<char>::empty());
                assert(split_adjust(Seq::<char>::empty(), tail1) =~~= tail1);
                assert(fields.deep_view() + split_adjust(
                    s@.subrange(start as int, i + 1),
                    spec_split(s@.skip(i + 1), sep),
                ) =~~= spec_split(s@, sep));
            }
        } else {
            proof {
                assert(tail =~~= seq![seq![s@[i as int]] + tail1[0]] + tail1.skip(1));
                assert(s@.subrange(start as int, i + 1) =~= pref + seq![s@[i as int]]);
                assert(split_adjust(pref, tail) =~~= split_adjust(
                    s@.subrange(start as int, i + 1),
                    tail1,
                ));
                assert(fields.deep_view() + split_adjust(
                    s@.subrange(start as int, i + 1),
                    spec_split(s@.skip(i + 1), sep),
                ) =~~= spec_split(s@, sep));
            }
        }
        i = i + 1;
    }
    let last = s.substring_char(start, n).to_owned();
    let ghost pre_fields = fields.deep_view();
    proof {
        assert(s@.skip(n as int) =~= Seq::<char>::empty());
        assert(spec_split(s@.skip(n as int), sep) =~~= seq![Seq::<char>::empty()]);
        assert(split_adjust(s@.subrange(start as int, n as int), seq![Seq::<char>::empty()])
            =~~= seq![s@.subrange(start as int, n as int)]);
        assert(last@ == s@.subrange(start as int, n as int));
    }
    fields.push(last);
    proof {
        assert(fields.deep_view() =~~= pre_fields.push(last@));
        assert(fields.deep_view() =~~= spec_split(s@, sep));
    }
    fields
}

/// A decimal digit character.
pub open spec fn is_dec_digit(c: char) -> bool {
    48 <= c as u32 <= 57
}

/// The value of one decimal digit character.
pub open spec fn digit_val(c: char) -> nat
    recommends
        is_dec_digit(c),
{
    (c as u32 - 48) as nat
}

/// Every character is a decimal digit.
pub open spec fn all_digits(s: Seq<char>) -> bool {
    forall|j: int| 0 <= j < s.len() ==> is_dec_digit(#[trigger] s[j])
}

/// The number that a run of decimal digit characters names.
pub open spec fn dec_val(s: Seq<char>) -> nat
    decreases s.len(),
{
    if s.len() == 0 {
        0
    } else {
        dec_val(s.drop_last()) * 10 + digit_val(s.last())
    }
}

/// What `str::parse::<u8>` accepts: an optional leading `+`, then at least
/// one digit, naming a value that fits in eight bits.
pub open spec fn parse_u8_spec(s: Seq<char>) -> Option<u8> {
    let digits = if s.len() >= 1 && s[0] == '+' {
        s.skip(1)
    } else {
        s
    };
    if digits.len() >= 1 && all_digits(digits) && dec_val(digits) <= 255 {
        Some(dec_val(digits) as u8)
    } else {
        None
    }
}

/// What `str::parse::<bool>` accepts: exactly `true` or `false`.
pub open spec fn parse_bool_spec(s: Seq<char>) -> Option<bool> {
    if s.len() == 4 && s[0] == 't' && s[1] == 'r' && s[2] == 'u' && s[3] == 'e' {
        Some(true)
    } else if s.len() == 5 && s[0] == 'f' && s[1] == 'a' && s[2] == 'l' && s[3] == 's' && s[4]
        == 'e' {
        Some(false)
    } else {
        None
    }
}

/// Appending one digit multiplies the value so far by ten.
proof fn lemma_dec_val_step(pref: Seq<char>, c: char)
    ensures
        dec_val(pref.push(c)) == dec_val(pref) * 10 + digit_val(c),
{
    assert(pref.push(c).drop_last() =~= pref);
    assert(pref.push(c).last() == c);
}

/// Parses an unsigned eight-bit decimal number the way `str::parse` does.
pub fn parse_u8_str(s: &str) -> (r: Option<u8>)
    ensures
        r == parse_u8_spec(s@),
{
    let n = s.unicode_len();
    let start: usize = if n >= 1 && s.get_char(0) == '+' {
        1
    } else {
        0
    };
    let ghost digits = if s@.len() >= 1 && s@[0] == '+' {
        s@.skip(1)
    } else {
        s@
    };
    proof {
        assert(digits.len() == n - start);
        assert(forall|j: int| 0 <= j < digits.len() ==> digits[j] == s@[j + start]);
    }
    if n == start {
        return None;
    }
    let mut acc: u16 = 0;
    let mut i: usize = start;
    proof {
        assert(digits.take(0) =~= Seq::<char>::empty());
    }
    while i < n
        invariant
            start <= i <= n,
            n == s@.len(),
            digits == (if s@.len() >= 1 && s@[0] == '+' {
                s@.skip(1)
            } else {
                s@
            }),
            digits.len() == n - start,
            forall|j: int| 0 <= j < digits.len() ==> digits[j] == s@[j + start],
            all_digits(digits.take(i - start)),
            acc == if dec_val(digits.take(i - start)) <= 255 {
                dec_val(digits.take(i - start))
            } else {
                256nat
            },
        decreases n - i,
    {
        let ghost pref = digits.take(i - start);
        let c = s.get_char(i);
        proof {
            assert(digits[i - start] == c);
        }
        let cv = c as u32;
        if cv < 48 || cv > 57 {
            proof {
                assert(!is_dec_digit(digits[i - start]));
            }
            return None;
        }
        let d = (cv - 48) as u16;
        acc = acc * 10 + d;
        if acc > 255 {
            acc = 256;
        }
        proof {
            assert(digits.take(i + 1 - start) =~= pref.push(c));
            lemma_dec_val_step(pref, c);
        }
        i = i + 1;
    }
    proof {
        assert(digits.take(n - start) =~= digits);
    }
    if acc > 255 {
        None
    } else {
        Some(acc as u8)
    }
}

/// Parses a boolean the way `str::parse` does: only `true` and `false`.
pub fn parse_bool_str(s: &str) -> (r: Option<bool>)
    ensures
        r == parse_bool_spec(s@),
{
    let n = s.unicode_len();
    if n == 4 && s.get_char(0) == 't' && s.get_char(1) == 'r' && s.get_char(2) == 'u'
        && s.get_char(3) == 'e' {
        Some(true)
    } else if n == 5 && s.get_char(0) == 'f' && s.get_char(1) == 'a' && s.get_char(2) == 'l'
        && s.get_char(3) == 's' && s.get_char(4) == 'e' {
        Some(false)
    } else {
        None
    }
}

/// The data carried by a login request body.
pub struct LoginData {
    pub username: String,
    pub password_md5: String,
    pub osu_version: String,
    pub timezone: u8,
    pub allow_dms: bool,
    pub osu_hash: String,
    pub adapter_hash: String,
    pub uninstaller_hash: String,
    pub serial_hash: String,
}

/// A login body is well shaped when it has exactly four newline-separated
/// fields, a client block of exactly five `|`-separated sub-fields, and a
/// hash block of exactly six `:`-separated components.
pub open spec fn login_body_valid(body: Seq<char>) -> bool {
    let parts = spec_split(body, '\n');
    &&& parts.len() == 4
    &&& spec_split(parts[2], '|').len() == 5
    &&& spec_split(spec_split(parts[2], '|')[3], ':').len() == 6
}

impl LoginData {
    /// Parses a login body. Returns `None` exactly when the body is
    /// malformed; a timezone that does not parse falls back to 0, and a
    /// direct-message flag that does not parse falls back to allowing them.
    pub fn from_body(body: String) -> (r: Option<LoginData>)
        ensures
            r is Some <==> login_body_valid(body@),
            r matches Some(d) ==> {
                let parts = spec_split(body@, '\n');
                let s_data = spec_split(parts[2], '|');
                let hashes = spec_split(s_data[3], ':');
                &&& d.username@ == parts[0]
                &&& d.password_md5@ == parts[1]
                &&& d.osu_version@ == s_data[0]
                &&& d.timezone == parse_u8_spec(s_data[1]).unwrap_or(0)
                &&& d.allow_dms == parse_bool_spec(s_data[4]).unwrap_or(true)
                &&& d.osu_hash@ == hashes[0]
                &&& d.adapter_hash@ == hashes[2]
                &&& d.uninstaller_hash@ == hashes[3]
                &&& d.serial_hash@ == hashes[4]
            },
    {
        let body_parts = split_str(body.as_str(), '\n');
        if body_parts.len() != 4 {
            return None;
        }
        let s_data = split_str(body_parts[2].as_str(), '|');
        if s_data.len() != 5 {
            return None;
        }
        let timezone = parse_u8_str(s_data[1].as_str()).unwrap_or(0);
        let allow_dms = parse_bool_str(s_data[4].as_str()).unwrap_or(true);
        let client_hashes = split_str(s_data[3].as_str(), ':');
        if client_hashes.len() != 6 {
            return None;
        }
        Some(
            LoginData {
                username: body_parts[0].clone(),
                password_md5: body_parts[1].clone(),
                osu_version: s_data[0].clone(),
                timezone,
                allow_dms,
                osu_hash: client_hashes[0].clone(),
                adapter_hash: client_hashes[2].clone(),
                uninstaller_hash: client_hashes[3].clone(),
                serial_hash: client_hashes[4].clone(),
            },
        )
    }
}

} // verus!
