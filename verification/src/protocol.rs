//! The protocol parser and writer for the device's response line
//! `LEN:<n>,COMPLEX:<c>,KEY:<hex>`, and the fixed request and remote-control
//! command lines.

use vstd::prelude::*;
use vstd::string::StringExecFns;
use crate::text::{
    count_char, digits_string, digits_value, is_digit, is_ws, leading_ws,
    lemma_spec_digits, lemma_split_len, lemma_split_two, parse_usize_str, push_char, spec_digits,
    spec_parse_uint, spec_split, spec_trim, trailing_ws, trim,
};

verus! {

/// Why a response line was rejected.
#[derive(Debug, Clone, Copy, PartialEq, Eq, Structural)]
pub enum ParseError {
    /// The line does not consist of exactly three comma-separated fields;
    /// `count` is the number of fields observed.
    WrongFieldCount { count: usize },
    /// The first field does not begin with `LEN:`.
    MissingLenPrefix,
    /// What follows `LEN:` is not a number the requested length can be.
    BadLenValue,
    /// The second field does not begin with `COMPLEX:`.
    MissingComplexPrefix,
    /// What follows `COMPLEX:` is not a number a complexity code can be.
    BadComplexValue,
    /// The third field does not begin with `KEY:`.
    MissingKeyPrefix,
}

pub open spec fn len_prefix() -> Seq<char> {
    seq!['L', 'E', 'N', ':']
}

pub open spec fn complex_prefix() -> Seq<char> {
    seq!['C', 'O', 'M', 'P', 'L', 'E', 'X', ':']
}

pub open spec fn key_prefix() -> Seq<char> {
    seq!['K', 'E', 'Y', ':']
}

pub open spec fn has_prefix(s: Seq<char>, p: Seq<char>) -> bool {
    p.len() <= s.len() && s.take(p.len() as int) == p
}

/// What parsing a response line yields: the requested length, the complexity
/// code and the hex-encoded key field, or the first reason the line is
/// rejected. The line is trimmed of surrounding whitespace, divided at the
/// commas into exactly three fields, and each field must carry its prefix;
/// the two numbers must fit their types.
pub open spec fn spec_parse(s: Seq<char>) -> Result<(usize, u8, Seq<char>), ParseError> {
    let t = spec_trim(s);
    let parts = spec_split(t, ',');
    if parts.len() != 3 {
        Err(ParseError::WrongFieldCount { count: parts.len() as usize })
    } else if !has_prefix(parts[0], len_prefix()) {
        Err(ParseError::MissingLenPrefix)
    } else {
        match spec_parse_uint(parts[0].skip(4)) {
            Option::None => Err(ParseError::BadLenValue),
            Option::Some(n) => if n > usize::MAX as nat {
                Err(ParseError::BadLenValue)
            } else if !has_prefix(parts[1], complex_prefix()) {
                Err(ParseError::MissingComplexPrefix)
            } else {
                match spec_parse_uint(parts[1].skip(8)) {
                    Option::None => Err(ParseError::BadComplexValue),
                    Option::Some(c) => if c > u8::MAX as nat {
                        Err(ParseError::BadComplexValue)
                    } else if !has_prefix(parts[2], key_prefix()) {
                        Err(ParseError::MissingKeyPrefix)
                    } else {
                        Ok((n as usize, c as u8, parts[2].skip(4)))
                    },
                }
            },
        }
    }
}

/// The result of the executable parser agrees with the parse specification.
pub open spec fn parse_matches(
    r: Result<(usize, u8, String), ParseError>,
    s: Result<(usize, u8, Seq<char>), ParseError>,
) -> bool {
    match (r, s) {
        (Ok((n, c, k)), Ok((sn, sc, sk))) => n == sn && c == sc && k@ == sk,
        (Err(e), Err(se)) => e == se,
        _ => false,
    }
}

/// Parses a response line into the requested length, the complexity code and
/// the hex-encoded key field, exactly as `spec_parse` reads it.
#[verifier::rlimit(100)]
#[verifier::spinoff_prover]
pub fn parse_response(response: &str) -> (r: Result<(usize, u8, String), ParseError>)
    requires
        response@.len() < usize::MAX,
    ensures
        parse_matches(r, spec_parse(response@)),
{
    let t = trim(response);
    let m = t.unicode_len();
    let mut count: usize = 0;
    let mut p1: usize = 0;
    let mut p2: usize = 0;
    let mut i: usize = 0;
    while i < m
        invariant
            i <= m,
            m == t@.len(),
            t@ == spec_trim(response@),
            m <= response@.len() < usize::MAX,
            count <= i,
            count == count_char(t@.take(i as int), ','),
            count == 0 ==> forall|j: int| 0 <= j < i ==> t@[j] != ',',
            count >= 1 ==> 0 <= p1 < i && t@[p1 as int] == ',' && (forall|j: int|
                0 <= j < p1 ==> t@[j] != ','),
            count >= 2 ==> p1 < p2 < i && t@[p2 as int] == ',' && (forall|j: int|
                p1 < j < p2 ==> t@[j] != ','),
            count == 1 ==> forall|j: int| p1 < j < i ==> t@[j] != ',',
            count == 2 ==> forall|j: int| p2 < j < i ==> t@[j] != ',',
        decreases m - i,
    {
        let c = t.get_char(i);
        proof {
            assert(t@.take(i as int + 1).drop_last() =~= t@.take(i as int));
            assert(t@.take(i as int + 1).last() == t@[i as int]);
            crate::text::lemma_count_push(t@.take(i as int), t@[i as int], ',');
            assert(t@.take(i as int).push(t@[i as int]) =~= t@.take(i as int + 1));
        }
        if c == ',' {
            if count == 0 {
                p1 = i;
            } else if count == 1 {
                p2 = i;
            }
            count = count + 1;
        }
        i = i + 1;
    }
    proof {
        assert(t@.take(m as int) =~= t@);
        lemma_split_len(t@, ',');
    }
    if count != 2 {
        return Err(ParseError::WrongFieldCount { count: count + 1 });
    }
    proof {
        lemma_split_two(t@, ',', p1 as int, p2 as int);
    }
    let ghost parts = spec_split(t@, ',');
    let part0 = t.substring_char(0, p1);
    let part1 = t.substring_char(p1 + 1, p2);
    let part2 = t.substring_char(p2 + 1, m);
    proof {
        assert(part0@ =~= parts[0]);
        assert(part1@ =~= parts[1]);
        assert(part2@ =~= parts[2]);
    }
    let n0 = part0.unicode_len();
    if n0 < 4 || !(part0.get_char(0) == 'L' && part0.get_char(1) == 'E' && part0.get_char(2)
        == 'N' && part0.get_char(3) == ':') {
        proof {
            assert(!has_prefix(parts[0], len_prefix()));
        }
        return Err(ParseError::MissingLenPrefix);
    }
    proof {
        assert(part0@.take(4) =~= len_prefix());
    }
    let len_str = part0.substring_char(4, n0);
    proof {
        assert(len_str@ =~= parts[0].skip(4));
    }
    let length = match parse_usize_str(len_str) {
        Option::Some(v) => v,
        Option::None => {
            return Err(ParseError::BadLenValue);
        },
    };
    let n1 = part1.unicode_len();
    if n1 < 8 || !(part1.get_char(0) == 'C' && part1.get_char(1) == 'O' && part1.get_char(2)
        == 'M' && part1.get_char(3) == 'P' && part1.get_char(4) == 'L' && part1.get_char(5)
        == 'E' && part1.get_char(6) == 'X' && part1.get_char(7) == ':') {
        proof {
            assert(!has_prefix(parts[1], complex_prefix()));
        }
        return Err(ParseError::MissingComplexPrefix);
    }
    proof {
        assert(part1@.take(8) =~= complex_prefix());
    }
    let complex_str = part1.substring_char(8, n1);
    proof {
        assert(complex_str@ =~= parts[1].skip(8));
    }
    let complexity = match parse_usize_str(complex_str) {
        Option::Some(v) => {
            if v > 255 {
                return Err(ParseError::BadComplexValue);
            }
            v
        },
        Option::None => {
            return Err(ParseError::BadComplexValue);
        },
    };
    let n2 = part2.unicode_len();
    if n2 < 4 || !(part2.get_char(0) == 'K' && part2.get_char(1) == 'E' && part2.get_char(2)
        == 'Y' && part2.get_char(3) == ':') {
        proof {
            assert(!has_prefix(parts[2], key_prefix()));
        }
        return Err(ParseError::MissingKeyPrefix);
    }
    proof {
        assert(part2@.take(4) =~= key_prefix());
    }
    let key = part2.substring_char(4, n2);
    proof {
        assert(key@ =~= parts[2].skip(4));
    }
    Ok((length, complexity as u8, key.to_owned()))
}

/// The response line that carries the three given fields.
pub open spec fn spec_serialize(length: usize, complexity: u8, key: Seq<char>) -> Seq<char> {
    len_prefix() + spec_digits(length as nat) + seq![','] + complex_prefix() + spec_digits(
        complexity as nat,
    ) + seq![','] + key_prefix() + key
}

/// Writes the three fields of a response back as one line.
pub fn serialize_response(length: usize, complexity: u8, key: &str) -> (r: String)
    ensures
        r@ == spec_serialize(length, complexity, key@),
{
    let mut out = String::new();
    push_char(&mut out, 'L');
    push_char(&mut out, 'E');
    push_char(&mut out, 'N');
    push_char(&mut out, ':');
    let dn = digits_string(length);
    out.append(dn.as_str());
    push_char(&mut out, ',');
    push_char(&mut out, 'C');
    push_char(&mut out, 'O');
    push_char(&mut out, 'M');
    push_char(&mut out, 'P');
    push_char(&mut out, 'L');
    push_char(&mut out, 'E');
    push_char(&mut out, 'X');
    push_char(&mut out, ':');
    let dc = digits_string(complexity as usize);
    out.append(dc.as_str());
    push_char(&mut out, ',');
    push_char(&mut out, 'K');
    push_char(&mut out, 'E');
    push_char(&mut out, 'Y');
    push_char(&mut out, ':');
    out.append(key);
    proof {
        assert(out@ =~= spec_serialize(length, complexity, key@));
    }
    out
}

/// Parsing a line serialized from the three fields yields the fields back.
/// This holds whenever no character of the key is a comma or a whitespace
/// character; every hex-encoded key satisfies that.
#[verifier::rlimit(80)]
pub proof fn lemma_parse_serialize_round_trip(length: usize, complexity: u8, key: Seq<char>)
    requires
        forall|i: int| 0 <= i < key.len() ==> (#[trigger] key[i]) != ',' && !is_ws(key[i]),
    ensures
        spec_parse(spec_serialize(length, complexity, key)) == Ok::<
            (usize, u8, Seq<char>),
            ParseError,
        >((length, complexity, key)),
{
    lemma_spec_digits(length as nat);
    lemma_spec_digits(complexity as nat);
    let dn = spec_digits(length as nat);
    let dc = spec_digits(complexity as nat);
    let s = spec_serialize(length, complexity, key);
    let i1 = 4 + dn.len() as int;
    let i2 = i1 + 9 + dc.len() as int;
    assert(s.len() == 18 + dn.len() + dc.len() + key.len());
    assert(s[i1] == ',');
    assert(s[i2] == ',');
    assert forall|j: int| 0 <= j < s.len() && j != i1 && j != i2 implies #[trigger] s[j] != ','
        && (0 < j < s.len() - 1 ==> !is_ws(s[j])) by {
        if j < 4 {
            assert(s[j] == len_prefix()[j]);
        } else if j < i1 {
            assert(s[j] == dn[j - 4]);
            assert(is_digit(dn[j - 4]));
        } else if j < i1 + 9 {
            assert(s[j] == complex_prefix()[j - i1 - 1]);
        } else if j < i2 {
            assert(s[j] == dc[j - (i1 + 9)]);
            assert(is_digit(dc[j - (i1 + 9)]));
        } else if j < i2 + 5 {
            assert(s[j] == key_prefix()[j - i2 - 1]);
        } else {
            assert(s[j] == key[j - (i2 + 5)]);
        }
    }
    assert(s[0] == 'L');
    assert(leading_ws(s) == 0);
    if key.len() == 0 {
        assert(s.last() == key_prefix()[3]);
    } else {
        assert(s.last() == key[key.len() - 1]);
    }
    assert(!is_ws(s.last()));
    assert(trailing_ws(s) == 0);
    assert(spec_trim(s) =~= s);
    lemma_split_two(s, ',', i1, i2);
    let parts = spec_split(s, ',');
    assert(parts[0] =~= len_prefix() + dn);
    assert(parts[1] =~= complex_prefix() + dc);
    assert(parts[2] =~= key_prefix() + key);
    assert((len_prefix() + dn).take(4) =~= len_prefix());
    assert((len_prefix() + dn).skip(4) =~= dn);
    assert(has_prefix(parts[0], len_prefix()));
    assert(dn[0] != '+') by {
        assert(is_digit(dn[0]));
    }
    assert(spec_parse_uint(parts[0].skip(4)) == Option::Some(digits_value(dn)));
    assert((complex_prefix() + dc).take(8) =~= complex_prefix());
    assert((complex_prefix() + dc).skip(8) =~= dc);
    assert(has_prefix(parts[1], complex_prefix()));
    assert(dc[0] != '+') by {
        assert(is_digit(dc[0]));
    }
    assert(spec_parse_uint(parts[1].skip(8)) == Option::Some(digits_value(dc)));
    assert((key_prefix() + key).take(4) =~= key_prefix());
    assert(has_prefix(parts[2], key_prefix()));
    assert(parts[2].skip(4) =~= key);
    assert(spec_parse(s) == Ok::<(usize, u8, Seq<char>), ParseError>(
        (length, complexity, key),
    ));
}

/// A one-shot remote-control command for the device.
#[derive(Debug, Clone, Copy, PartialEq, Eq, Structural)]
pub enum RemoteCommand {
    Up,
    Down,
    Select,
}

/// The newline-terminated line that a remote-control command puts on the wire.
pub open spec fn spec_command_line(cmd: RemoteCommand) -> Seq<char> {
    match cmd {
        RemoteCommand::Up => "CMD_UP\n"@,
        RemoteCommand::Down => "CMD_DOWN\n"@,
        RemoteCommand::Select => "CMD_SELECT\n"@,
    }
}

impl RemoteCommand {
    /// Serializes the command to the line it sends on the wire.
    pub fn wire_line(&self) -> (r: String)
        ensures
            r@ == spec_command_line(*self),
    {
        match self {
            RemoteCommand::Up => "CMD_UP\n".to_owned(),
            RemoteCommand::Down => "CMD_DOWN\n".to_owned(),
            RemoteCommand::Select => "CMD_SELECT\n".to_owned(),
        }
    }
}

/// The request line that asks the device for seed material.
pub open spec fn spec_request_line() -> Seq<char> {
    "GET_DATA\n"@
}

/// Returns the request line that asks the device for seed material.
pub fn request_line() -> (r: String)
    ensures
        r@ == spec_request_line(),
{
    "GET_DATA\n".to_owned()
}

/// The display text of each parse error; the field-count error names the
/// number of fields observed.
pub open spec fn spec_parse_error_message(e: ParseError) -> Seq<char> {
    match e {
        ParseError::WrongFieldCount { count } => "invalid response format ("@ + spec_digits(
            count as nat,
        ) + " parts)"@,
        ParseError::MissingLenPrefix => "missing LEN"@,
        ParseError::BadLenValue => "invalid LEN value"@,
        ParseError::MissingComplexPrefix => "missing COMPLEX"@,
        ParseError::BadComplexValue => "invalid COMPLEX value"@,
        ParseError::MissingKeyPrefix => "missing KEY"@,
    }
}

impl ParseError {
    /// The display text of the error.
    pub fn message(&self) -> (r: String)
        ensures
            r@ == spec_parse_error_message(*self),
    {
        match self {
            ParseError::WrongFieldCount { count } => {
                let mut out = "invalid response format (".to_owned();
                let d = digits_string(*count);
                out.append(d.as_str());
                out.append(" parts)");
                out
            },
            ParseError::MissingLenPrefix => "missing LEN".to_owned(),
            ParseError::BadLenValue => "invalid LEN value".to_owned(),
            ParseError::MissingComplexPrefix => "missing COMPLEX".to_owned(),
            ParseError::BadComplexValue => "invalid COMPLEX value".to_owned(),
            ParseError::MissingKeyPrefix => "missing KEY".to_owned(),
        }
    }
}

} // verus!
