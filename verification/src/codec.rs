//! The response decoder: stateless parsing of the server's line-oriented
//! reply grammar into typed records. A reply is zero or more `name: value`
//! lines closed by an `OK` line, or an `ACK [code@index] {verb} message`
//! failure line. A record boundary is any line whose field name repeats a
//! name already seen in the current record. Decoding is total: a line that
//! fits neither shape is a decode error, never dropped.

use vstd::prelude::*;

verus! {

pub const BYTE_COLON: u8 = 58;
pub const BYTE_SPACE: u8 = 32;
pub const BYTE_AT: u8 = 64;
pub const BYTE_LBRACKET: u8 = 91;
pub const BYTE_RBRACKET: u8 = 93;
pub const BYTE_LBRACE: u8 = 123;
pub const BYTE_RBRACE: u8 = 125;
pub const BYTE_ZERO: u8 = 48;
pub const BYTE_NINE: u8 = 57;
pub const BYTE_UPPER_A: u8 = 65;
pub const BYTE_UPPER_C: u8 = 67;
pub const BYTE_UPPER_K: u8 = 75;
pub const BYTE_UPPER_O: u8 = 79;

/// One decoded `name: value` pair.
#[derive(Debug, Clone, PartialEq, Eq)]
pub struct Field {
    pub name: Vec<u8>,
    pub value: Vec<u8>,
}

/// The mathematical value of a `Field`.
pub struct SpecField {
    pub name: Seq<u8>,
    pub value: Seq<u8>,
}

impl View for Field {
    type V = SpecField;

    open spec fn view(&self) -> SpecField {
        SpecField { name: self.name@, value: self.value@ }
    }
}

/// A server failure signal: an error code, the index of the failing command
/// within a batch, the failing verb, and a human-readable message.
#[derive(Debug, Clone, PartialEq, Eq)]
pub struct Ack {
    pub code: u32,
    pub command_index: u32,
    pub verb: Vec<u8>,
    pub message: Vec<u8>,
}

/// The mathematical value of an `Ack`.
pub struct SpecAck {
    pub code: int,
    pub command_index: int,
    pub verb: Seq<u8>,
    pub message: Seq<u8>,
}

impl View for Ack {
    type V = SpecAck;

    open spec fn view(&self) -> SpecAck {
        SpecAck {
            code: self.code as int,
            command_index: self.command_index as int,
            verb: self.verb@,
            message: self.message@,
        }
    }
}

/// A decoded reply: the records of a success, or the failure signal.
#[derive(Debug)]
pub enum Reply {
    Records(Vec<Vec<Field>>),
    Failure(Ack),
}

/// Why a reply failed to decode.
#[derive(Debug, Clone, Copy, PartialEq, Eq, Structural)]
pub enum DecodeError {
    /// The line at this index fits neither `name: value` nor a terminator.
    MalformedLine(usize),
    /// The final line began like a failure line but did not parse.
    MalformedAck,
    /// The reply did not end with `OK` or an `ACK` line.
    MissingTerminator,
}

/// The views of a vector of lines.
pub open spec fn lines_view(ls: Seq<Vec<u8>>) -> Seq<Seq<u8>> {
    ls.map_values(|l: Vec<u8>| l@)
}

/// The views of a vector of fields.
pub open spec fn fields_view(fs: Seq<Field>) -> Seq<SpecField> {
    fs.map_values(|f: Field| f@)
}

/// The views of decoded records.
pub open spec fn records_view(rs: Seq<Vec<Field>>) -> Seq<Seq<SpecField>> {
    rs.map_values(|r: Vec<Field>| fields_view(r@))
}

/// The first position at or after `i` holding byte `b`.
pub open spec fn find_from(l: Seq<u8>, b: u8, i: int) -> Option<int>
    decreases l.len() - i,
{
    if i < 0 || i >= l.len() {
        None
    } else if l[i] == b {
        Some(i)
    } else {
        find_from(l, b, i + 1)
    }
}

/// What a well-formed field line looks like: name, colon, space, value.
pub open spec fn line_of(f: SpecField) -> Seq<u8> {
    f.name + seq![BYTE_COLON, BYTE_SPACE] + f.value
}

/// Parse one `name: value` line: the name runs to the first colon, which
/// must be followed by a space; the name must be nonempty.
pub open spec fn spec_parse_line(l: Seq<u8>) -> Option<SpecField> {
    match find_from(l, BYTE_COLON, 0) {
        None => None,
        Some(i) => if i >= 1 && i + 1 < l.len() && l[i + 1] == BYTE_SPACE {
            Some(SpecField { name: l.subrange(0, i), value: l.subrange(i + 2, l.len() as int) })
        } else {
            None
        },
    }
}

/// The success terminator line.
pub open spec fn ok_line() -> Seq<u8> {
    seq![BYTE_UPPER_O, BYTE_UPPER_K]
}

/// The line begins like a failure line (`ACK`).
pub open spec fn is_ack_start(l: Seq<u8>) -> bool {
    l.len() >= 3 && l[0] == BYTE_UPPER_A && l[1] == BYTE_UPPER_C && l[2] == BYTE_UPPER_K
}

/// The byte is a decimal digit.
pub open spec fn is_digit(b: u8) -> bool {
    BYTE_ZERO <= b <= BYTE_NINE
}

/// Every byte of `s` is a decimal digit.
pub open spec fn all_digits(s: Seq<u8>) -> bool {
    forall|i: int| 0 <= i < s.len() ==> is_digit(#[trigger] s[i])
}

/// The value of a decimal numeral.
pub open spec fn dec_val(s: Seq<u8>) -> int
    decreases s.len(),
{
    if s.len() == 0 {
        0
    } else {
        dec_val(s.drop_last()) * 10 + (s.last() - BYTE_ZERO)
    }
}

/// A numeral field of a failure line: nonempty, all digits, short enough to
/// fit the decoded integer type.
pub open spec fn wf_numeral(s: Seq<u8>) -> bool {
    1 <= s.len() <= 9 && all_digits(s)
}

/// Parse a failure line `ACK [code@index] {verb} message`.
pub open spec fn spec_parse_ack(l: Seq<u8>) -> Option<SpecAck> {
    if !(l.len() >= 5 && l[0] == BYTE_UPPER_A && l[1] == BYTE_UPPER_C && l[2] == BYTE_UPPER_K
        && l[3] == BYTE_SPACE && l[4] == BYTE_LBRACKET) {
        None
    } else {
        match find_from(l, BYTE_AT, 5) {
            None => None,
            Some(a) => match find_from(l, BYTE_RBRACKET, a + 1) {
                None => None,
                Some(c) => if !(wf_numeral(l.subrange(5, a)) && wf_numeral(l.subrange(a + 1, c))
                    && c + 2 < l.len() && l[c + 1] == BYTE_SPACE && l[c + 2] == BYTE_LBRACE) {
                    None
                } else {
                    match find_from(l, BYTE_RBRACE, c + 3) {
                        None => None,
                        Some(d) => if d + 1 < l.len() && l[d + 1] == BYTE_SPACE {
                            Some(
                                SpecAck {
                                    code: dec_val(l.subrange(5, a)),
                                    command_index: dec_val(l.subrange(a + 1, c)),
                                    verb: l.subrange(c + 3, d),
                                    message: l.subrange(d + 2, l.len() as int),
                                },
                            )
                        } else {
                            None
                        },
                    }
                },
            },
        }
    }
}

/// A record already holds a field of this name.
pub open spec fn rec_contains_name(r: Seq<SpecField>, n: Seq<u8>) -> bool {
    exists|j: int| 0 <= j < r.len() && (#[trigger] r[j]).name == n
}

/// Fold one field into grouped records: start a new record when the current
/// one already holds the field's name, else extend the current record.
pub open spec fn group_step(acc: Seq<Seq<SpecField>>, f: SpecField) -> Seq<Seq<SpecField>> {
    if acc.len() == 0 {
        seq![seq![f]]
    } else if rec_contains_name(acc.last(), f.name) {
        acc.push(seq![f])
    } else {
        acc.update(acc.len() - 1, acc.last().push(f))
    }
}

/// Group a field sequence into records by the repeated-name boundary rule.
pub open spec fn spec_group(fields: Seq<SpecField>) -> Seq<Seq<SpecField>>
    decreases fields.len(),
{
    if fields.len() == 0 {
        Seq::empty()
    } else {
        group_step(spec_group(fields.drop_last()), fields.last())
    }
}

/// The first line index that does not parse as a field line.
pub open spec fn first_bad_line(body: Seq<Seq<u8>>, i: int) -> Option<int>
    decreases body.len() - i,
{
    if i < 0 || i >= body.len() {
        None
    } else if spec_parse_line(body[i]) is None {
        Some(i)
    } else {
        first_bad_line(body, i + 1)
    }
}

/// The parsed fields of a body whose lines all parse.
pub open spec fn spec_parse_all(body: Seq<Seq<u8>>) -> Seq<SpecField>
    decreases body.len(),
{
    if body.len() == 0 {
        Seq::empty()
    } else {
        spec_parse_all(body.drop_last()).push(spec_parse_line(body.last()).unwrap())
    }
}

/// The decoded meaning of a complete reply.
pub enum SpecDecoded {
    Records(Seq<Seq<SpecField>>),
    Failure(SpecAck),
    Malformed(int),
    MalformedAck,
    MissingTerminator,
}

/// Decode a complete reply: a body closed by `OK` yields grouped records, an
/// `ACK` line yields the failure, anything else is a decode error.
pub open spec fn spec_decode(lines: Seq<Seq<u8>>) -> SpecDecoded {
    if lines.len() == 0 {
        SpecDecoded::MissingTerminator
    } else if lines.last() == ok_line() {
        match first_bad_line(lines.drop_last(), 0) {
            Some(i) => SpecDecoded::Malformed(i),
            None => SpecDecoded::Records(spec_group(spec_parse_all(lines.drop_last()))),
        }
    } else if is_ack_start(lines.last()) {
        match spec_parse_ack(lines.last()) {
            Some(a) => SpecDecoded::Failure(a),
            None => SpecDecoded::MalformedAck,
        }
    } else {
        SpecDecoded::MissingTerminator
    }
}

/// The exec decode result means exactly what `spec_decode` says.
pub open spec fn decode_matches(r: Result<Reply, DecodeError>, d: SpecDecoded) -> bool {
    match d {
        SpecDecoded::Records(rs) => r matches Ok(Reply::Records(v)) && records_view(v@) == rs,
        SpecDecoded::Failure(a) => r matches Ok(Reply::Failure(k)) && k@ == a,
        SpecDecoded::Malformed(i) => r matches Err(DecodeError::MalformedLine(u)) && u == i,
        SpecDecoded::MalformedAck => r == Err::<Reply, DecodeError>(DecodeError::MalformedAck),
        SpecDecoded::MissingTerminator => r == Err::<Reply, DecodeError>(
            DecodeError::MissingTerminator,
        ),
    }
}

/// Copy `src[a..b]` into a fresh vector.
fn copy_range(src: &Vec<u8>, a: usize, b: usize) -> (r: Vec<u8>)
    requires
        a <= b <= src@.len(),
    ensures
        r@ == src@.subrange(a as int, b as int),
{
    let mut r: Vec<u8> = Vec::new();
    let mut i: usize = a;
    while i < b
        invariant
            a <= i <= b <= src@.len(),
            r@ == src@.subrange(a as int, i as int),
        decreases b - i,
    {
        r.push(src[i]);
        proof {
            assert(src@.subrange(a as int, i + 1 as int) =~= src@.subrange(a as int, i as int).push(
                src@[i as int],
            ));
        }
        i = i + 1;
    }
    r
}

/// Find the first position at or after `start` holding byte `b`.
fn find_byte(l: &Vec<u8>, b: u8, start: usize) -> (r: Option<usize>)
    ensures
        match find_from(l@, b, start as int) {
            Some(j) => r matches Some(u) && u == j && start <= j < l@.len(),
            None => r is None,
        },
{
    let mut j: usize = start;
    while j < l.len()
        invariant
            start <= j,
            find_from(l@, b, start as int) == find_from(l@, b, j as int),
        decreases l@.len() - j,
    {
        if l[j] == b {
            proof {
                assert(find_from(l@, b, j as int) == Some(j as int));
            }
            return Some(j);
        }
        proof {
            assert(find_from(l@, b, j as int) == find_from(l@, b, j + 1));
        }
        j = j + 1;
    }
    None
}

/// Parse one `name: value` line.
pub fn parse_line(l: &Vec<u8>) -> (r: Option<Field>)
    ensures
        match spec_parse_line(l@) {
            Some(sf) => r matches Some(f) && f@ == sf,
            None => r is None,
        },
{
    let n: usize = l.len();
    match find_byte(l, BYTE_COLON, 0) {
        None => None,
        Some(i) => {
            if i >= 1 && i + 1 < n && l[i + 1] == BYTE_SPACE {
                let name = copy_range(l, 0, i);
                let value = copy_range(l, i + 2, l.len());
                Some(Field { name, value })
            } else {
                None
            }
        },
    }
}

/// The line is exactly the `OK` terminator.
pub fn is_ok_line(l: &Vec<u8>) -> (r: bool)
    ensures
        r == (l@ == ok_line()),
{
    let r = l.len() == 2 && l[0] == BYTE_UPPER_O && l[1] == BYTE_UPPER_K;
    proof {
        if r {
            assert(l@ =~= ok_line());
        } else {
            if l@.len() == ok_line().len() {
                assert(l@[0] == ok_line()[0] && l@[1] == ok_line()[1] ==> l@ =~= ok_line());
            }
        }
    }
    r
}

/// The line begins like a failure line.
pub fn is_ack_line(l: &Vec<u8>) -> (r: bool)
    ensures
        r == is_ack_start(l@),
{
    l.len() >= 3 && l[0] == BYTE_UPPER_A && l[1] == BYTE_UPPER_C && l[2] == BYTE_UPPER_K
}

/// Parse the digits `l[a..b]` as a decimal numeral.
fn parse_numeral(l: &Vec<u8>, a: usize, b: usize) -> (r: Option<u32>)
    requires
        a <= b <= l@.len(),
    ensures
        if wf_numeral(l@.subrange(a as int, b as int)) {
            r matches Some(v) && v == dec_val(l@.subrange(a as int, b as int))
        } else {
            r is None
        },
{
    if a == b || b - a > 9 {
        return None;
    }
    let ghost digits = l@.subrange(a as int, b as int);
    let mut v: u32 = 0;
    let mut i: usize = a;
    proof {
        lemma_tenpow_monotonic(0, 9);
    }
    while i < b
        invariant
            a <= i <= b <= l@.len(),
            b - a <= 9,
            digits == l@.subrange(a as int, b as int),
            all_digits(l@.subrange(a as int, i as int)),
            v == dec_val(l@.subrange(a as int, i as int)),
            v < tenpow((i - a) as nat),
            tenpow((i - a) as nat) <= tenpow(9),
        decreases b - i,
    {
        let c = l[i];
        if !(BYTE_ZERO <= c && c <= BYTE_NINE) {
            proof {
                assert(digits[i - a] == c);
                assert(!all_digits(digits));
            }
            return None;
        }
        proof {
            lemma_tenpow_9();
            assert(l@.subrange(a as int, i + 1 as int).drop_last() =~= l@.subrange(
                a as int,
                i as int,
            ));
            assert(l@.subrange(a as int, i + 1 as int).last() == c);
            lemma_tenpow_monotonic((i - a) as nat, 8);
            lemma_tenpow_monotonic((i + 1 - a) as nat, 9);
        }
        v = v * 10 + ((c - BYTE_ZERO) as u32);
        i = i + 1;
        proof {
            assert(all_digits(l@.subrange(a as int, i as int)));
        }
    }
    proof {
        assert(l@.subrange(a as int, i as int) == digits);
    }
    Some(v)
}

/// Ten to the `n`.
pub open spec fn tenpow(n: nat) -> int
    decreases n,
{
    if n == 0 {
        1
    } else {
        10 * tenpow((n - 1) as nat)
    }
}

proof fn lemma_tenpow_9()
    ensures
        tenpow(9) == 1000000000,
        tenpow(8) == 100000000,
{
    reveal_with_fuel(tenpow, 10);
}

proof fn lemma_tenpow_pos(n: nat)
    ensures
        tenpow(n) >= 1,
    decreases n,
{
    if n > 0 {
        lemma_tenpow_pos((n - 1) as nat);
    }
}

proof fn lemma_tenpow_monotonic(m: nat, n: nat)
    requires
        m <= n,
    ensures
        tenpow(m) <= tenpow(n),
    decreases n,
{
    lemma_tenpow_pos(m);
    if m < n {
        lemma_tenpow_monotonic(m, (n - 1) as nat);
        lemma_tenpow_pos((n - 1) as nat);
    }
}

/// Parse a failure line `ACK [code@index] {verb} message`.
pub fn parse_ack(l: &Vec<u8>) -> (r: Option<Ack>)
    ensures
        match spec_parse_ack(l@) {
            Some(sa) => r matches Some(k) && k@ == sa,
            None => r is None,
        },
{
    if !(l.len() >= 5 && l[0] == BYTE_UPPER_A && l[1] == BYTE_UPPER_C && l[2] == BYTE_UPPER_K
        && l[3] == BYTE_SPACE && l[4] == BYTE_LBRACKET) {
        return None;
    }
    let a = match find_byte(l, BYTE_AT, 5) {
        None => {
            return None;
        },
        Some(a) => a,
    };
    let c = match find_byte(l, BYTE_RBRACKET, a + 1) {
        None => {
            return None;
        },
        Some(c) => c,
    };
    let code = match parse_numeral(l, 5, a) {
        None => {
            return None;
        },
        Some(v) => v,
    };
    let command_index = match parse_numeral(l, a + 1, c) {
        None => {
            return None;
        },
        Some(v) => v,
    };
    if !(c + 2 < l.len() && l[c + 1] == BYTE_SPACE && l[c + 2] == BYTE_LBRACE) {
        return None;
    }
    let d = match find_byte(l, BYTE_RBRACE, c + 3) {
        None => {
            return None;
        },
        Some(d) => d,
    };
    if !(d + 1 < l.len() && l[d + 1] == BYTE_SPACE) {
        return None;
    }
    let verb = copy_range(l, c + 3, d);
    let message = copy_range(l, d + 2, l.len());
    Some(Ack { code, command_index, verb, message })
}

/// Decode body lines into grouped records, or report the first line that is
/// not a field line.
pub fn decode_fields(body: &Vec<Vec<u8>>) -> (r: Result<Vec<Vec<Field>>, usize>)
    ensures
        match first_bad_line(lines_view(body@), 0) {
            Some(i) => r matches Err(u) && u == i,
            None => r matches Ok(v) && records_view(v@) == spec_group(
                spec_parse_all(lines_view(body@)),
            ),
        },
{
    let mut records: Vec<Vec<Field>> = Vec::new();
    let mut i: usize = 0;
    proof {
        assert(lines_view(body@.subrange(0, 0)) =~= Seq::<Seq<u8>>::empty());
        assert(spec_parse_all(lines_view(body@.subrange(0, 0))) =~= Seq::<SpecField>::empty());
        assert(records_view(records@) =~= Seq::<Seq<SpecField>>::empty());
    }
    while i < body.len()
        invariant
            i <= body@.len(),
            first_bad_line(lines_view(body@), 0) == first_bad_line(lines_view(body@), i as int),
            records_view(records@) == spec_group(
                spec_parse_all(lines_view(body@.subrange(0, i as int))),
            ),
        decreases body@.len() - i,
    {
        let ghost prefix = lines_view(body@.subrange(0, i as int));
        let field = match parse_line(&body[i]) {
            None => {
                proof {
                    assert(lines_view(body@)[i as int] == body@[i as int]@);
                    assert(first_bad_line(lines_view(body@), i as int) == Some(i as int));
                }
                return Err(i);
            },
            Some(f) => f,
        };
        proof {
            assert(lines_view(body@)[i as int] == body@[i as int]@);
            assert(first_bad_line(lines_view(body@), i as int) == first_bad_line(
                lines_view(body@),
                i + 1,
            ));
            assert(lines_view(body@.subrange(0, i + 1 as int)).drop_last() =~= prefix);
            assert(lines_view(body@.subrange(0, i + 1 as int)).last() == body@[i as int]@);
            assert(spec_parse_all(lines_view(body@.subrange(0, i + 1 as int))) == spec_parse_all(
                prefix,
            ).push(field@));
        }
        let ghost old_records = records@;
        let mut start_new = true;
        if records.len() > 0 {
            let k: usize = records.len();
            let last_rec: &Vec<Field> = &records[k - 1];
            let mut j: usize = 0;
            let mut found = false;
            while j < last_rec.len() && !found
                invariant
                    j <= last_rec@.len(),
                    found ==> rec_contains_name(fields_view(last_rec@), field@.name),
                    !found ==> !rec_contains_name(
                        fields_view(last_rec@.subrange(0, j as int)),
                        field@.name,
                    ),
                decreases last_rec@.len() - j,
            {
                if crate::text::bytes_eq(&last_rec[j].name, &field.name) {
                    found = true;
                    proof {
                        assert(fields_view(last_rec@)[j as int] == last_rec@[j as int]@);
                        assert(rec_contains_name(fields_view(last_rec@), field@.name));
                    }
                } else {
                    proof {
                        if rec_contains_name(
                            fields_view(last_rec@.subrange(0, j + 1 as int)),
                            field@.name,
                        ) {
                            let w = choose|w: int|
                                0 <= w < j + 1 && (#[trigger] fields_view(
                                    last_rec@.subrange(0, j + 1 as int),
                                )[w]).name == field@.name;
                            assert(fields_view(last_rec@.subrange(0, j + 1 as int))[w]
                                == last_rec@[w]@);
                            if w < j {
                                assert(fields_view(last_rec@.subrange(0, j as int))[w]
                                    == last_rec@[w]@);
                                assert(false);
                            } else {
                                assert(last_rec@[j as int]@.name == field@.name);
                                assert(false);
                            }
                        }
                    }
                }
                j = j + 1;
            }
            proof {
                if !found {
                    assert(last_rec@.subrange(0, last_rec@.len() as int) =~= last_rec@);
                }
            }
            start_new = found;
        }
        if start_new {
            let mut rec: Vec<Field> = Vec::new();
            rec.push(field);
            records.push(rec);
            proof {
                assert(fields_view(rec@) =~= seq![field@]);
                assert(records_view(records@) =~= records_view(old_records).push(seq![field@]));
            }
        } else {
            let k: usize = records.len();
            let last_rec = &mut records[k - 1];
            last_rec.push(field);
            proof {
                assert(fields_view(records@[k - 1]@) =~= fields_view(old_records[k as int - 1]@)
                    .push(field@));
                assert(records_view(records@) =~= records_view(old_records).update(
                    k as int - 1,
                    fields_view(old_records[k as int - 1]@).push(field@),
                ));
            }
        }
        proof {
            let all = spec_parse_all(lines_view(body@.subrange(0, i + 1 as int)));
            assert(all.drop_last() =~= spec_parse_all(prefix));
            assert(spec_group(all) == group_step(spec_group(spec_parse_all(prefix)), field@));
        }
        i = i + 1;
    }
    proof {
        assert(body@.subrange(0, body@.len() as int) =~= body@);
    }
    Ok(records)
}

/// Decode a complete reply, terminator line included.
pub fn decode(lines: &Vec<Vec<u8>>) -> (r: Result<Reply, DecodeError>)
    ensures
        decode_matches(r, spec_decode(lines_view(lines@))),
{
    if lines.len() == 0 {
        return Err(DecodeError::MissingTerminator);
    }
    let n: usize = lines.len();
    let last = &lines[n - 1];
    proof {
        assert(lines_view(lines@).last() == lines@[n - 1]@);
    }
    if is_ok_line(last) {
        let mut body: Vec<Vec<u8>> = Vec::new();
        let mut i: usize = 0;
        proof {
            assert(lines_view(body@) =~= lines_view(lines@).subrange(0, 0));
        }
        while i < n - 1
            invariant
                n == lines@.len(),
                n >= 1,
                i <= n - 1,
                lines_view(body@) == lines_view(lines@).subrange(0, i as int),
            decreases n - i,
        {
            let li: &Vec<u8> = &lines[i];
            let copied = copy_range(li, 0, li.len());
            proof {
                assert(copied@ =~= lines@[i as int]@);
            }
            let ghost pre = body@;
            body.push(copied);
            proof {
                assert(body@ == pre.push(copied));
                assert(lines_view(pre).len() == pre.len());
                assert(lines_view(pre).len() == i);
                assert(body@.len() == i + 1);
                assert forall|w: int| 0 <= w < i + 1 implies lines_view(body@)[w] == lines_view(
                    lines@,
                ).subrange(0, i + 1 as int)[w] by {
                    assert(lines_view(body@)[w] == body@[w]@);
                    if w < i {
                        assert(body@[w] == pre[w]);
                        assert(lines_view(pre)[w] == lines_view(lines@).subrange(0, i as int)[w]);
                    } else {
                        assert(body@[w] == copied);
                    }
                }
                assert(lines_view(body@) =~= lines_view(lines@).subrange(0, i + 1 as int));
            }
            i = i + 1;
        }
        proof {
            assert(lines_view(body@) =~= lines_view(lines@).drop_last());
        }
        match decode_fields(&body) {
            Ok(v) => Ok(Reply::Records(v)),
            Err(u) => Err(DecodeError::MalformedLine(u)),
        }
    } else if is_ack_line(last) {
        match parse_ack(last) {
            Some(a) => Ok(Reply::Failure(a)),
            None => Err(DecodeError::MalformedAck),
        }
    } else {
        Err(DecodeError::MissingTerminator)
    }
}

/// The fields of a record stream, in order.
pub open spec fn flatten_records(rs: Seq<Seq<SpecField>>) -> Seq<SpecField>
    decreases rs.len(),
{
    if rs.len() == 0 {
        Seq::empty()
    } else {
        flatten_records(rs.drop_last()) + rs.last()
    }
}

/// The encoded lines of a field sequence, one line per field.
pub open spec fn lines_of_fields(fields: Seq<SpecField>) -> Seq<Seq<u8>>
    decreases fields.len(),
{
    if fields.len() == 0 {
        Seq::empty()
    } else {
        lines_of_fields(fields.drop_last()).push(line_of(fields.last()))
    }
}

/// A field name the line grammar can carry back: nonempty and colon-free.
pub open spec fn wf_name(n: Seq<u8>) -> bool {
    n.len() >= 1 && forall|i: int| 0 <= i < n.len() ==> #[trigger] n[i] != BYTE_COLON
}

/// A record stream the boundary rule can delimit: every record nonempty,
/// names within a record well formed and distinct, and each record opening
/// with a name the record before it already used.
pub open spec fn wf_records(rs: Seq<Seq<SpecField>>) -> bool {
    &&& forall|k: int| 0 <= k < rs.len() ==> (#[trigger] rs[k]).len() >= 1
    &&& forall|k: int, i: int|
        0 <= k < rs.len() && 0 <= i < rs[k].len() ==> wf_name((#[trigger] rs[k][i]).name)
    &&& forall|k: int, i1: int, i2: int|
        0 <= k < rs.len() && 0 <= i1 < i2 < rs[k].len() ==> (#[trigger] rs[k][i1]).name != (
        #[trigger] rs[k][i2]).name
    &&& forall|k: int|
        1 <= k < rs.len() ==> rec_contains_name(#[trigger] rs[k - 1], rs[k][0].name)
}

proof fn lemma_find_colon(l: Seq<u8>, nl: int, i: int)
    requires
        0 <= i <= nl < l.len(),
        l[nl] == BYTE_COLON,
        forall|t: int| 0 <= t < nl ==> #[trigger] l[t] != BYTE_COLON,
    ensures
        find_from(l, BYTE_COLON, i) == Some(nl),
    decreases nl - i,
{
    if i < nl {
        lemma_find_colon(l, nl, i + 1);
    }
}

/// Parsing undoes encoding for one field line.
proof fn lemma_parse_line_of(f: SpecField)
    requires
        wf_name(f.name),
    ensures
        spec_parse_line(line_of(f)) == Some(f),
{
    let l = line_of(f);
    let nl = f.name.len() as int;
    assert(l.len() == nl + 2 + f.value.len());
    assert(l[nl] == BYTE_COLON);
    assert forall|t: int| 0 <= t < nl implies #[trigger] l[t] != BYTE_COLON by {
        assert(l[t] == f.name[t]);
    }
    lemma_find_colon(l, nl, 0);
    assert(l[nl + 1] == BYTE_SPACE);
    assert(l.subrange(0, nl) =~= f.name);
    assert(l.subrange(nl + 2, l.len() as int) =~= f.value);
}

/// The encoded lines, indexed.
proof fn lemma_lines_index(fields: Seq<SpecField>)
    ensures
        lines_of_fields(fields).len() == fields.len(),
        forall|t: int|
            0 <= t < fields.len() ==> #[trigger] lines_of_fields(fields)[t] == line_of(fields[t]),
    decreases fields.len(),
{
    if fields.len() > 0 {
        lemma_lines_index(fields.drop_last());
    }
}

proof fn lemma_no_bad_from(body: Seq<Seq<u8>>, i: int)
    requires
        0 <= i,
        forall|t: int| 0 <= t < body.len() ==> spec_parse_line(#[trigger] body[t]) is Some,
    ensures
        first_bad_line(body, i) is None,
    decreases body.len() - i,
{
    if i < body.len() {
        lemma_no_bad_from(body, i + 1);
    }
}

/// Parsing every encoded line of a well-named field sequence gives the
/// fields back.
proof fn lemma_parse_all_fields(fields: Seq<SpecField>)
    requires
        forall|i: int| 0 <= i < fields.len() ==> wf_name((#[trigger] fields[i]).name),
    ensures
        spec_parse_all(lines_of_fields(fields)) == fields,
        forall|t: int|
            0 <= t < lines_of_fields(fields).len() ==> spec_parse_line(
                #[trigger] lines_of_fields(fields)[t],
            ) is Some,
    decreases fields.len(),
{
    lemma_lines_index(fields);
    if fields.len() == 0 {
        assert(spec_parse_all(lines_of_fields(fields)) =~= fields);
        assert forall|t: int| 0 <= t < lines_of_fields(fields).len() implies spec_parse_line(
            #[trigger] lines_of_fields(fields)[t],
        ) is Some by {}
    } else {
        lemma_parse_all_fields(fields.drop_last());
        lemma_parse_line_of(fields.last());
        let lines = lines_of_fields(fields);
        assert(lines.drop_last() =~= lines_of_fields(fields.drop_last()));
        assert(lines.last() == line_of(fields.last()));
        assert(spec_parse_all(lines) == fields.drop_last().push(fields.last()));
        assert(fields.drop_last().push(fields.last()) =~= fields);
        assert forall|t: int| 0 <= t < lines.len() implies spec_parse_line(
            #[trigger] lines[t],
        ) is Some by {
            assert(lines[t] == line_of(fields[t]));
            lemma_parse_line_of(fields[t]);
        }
    }
}

proof fn lemma_group_len_pos(fields: Seq<SpecField>)
    requires
        fields.len() > 0,
    ensures
        spec_group(fields).len() >= 1,
    decreases fields.len(),
{
    if fields.drop_last().len() > 0 {
        lemma_group_len_pos(fields.drop_last());
    }
}

/// Grouping a flat prefix followed by the first `j` fields of a fresh record
/// appends exactly one record, provided the record's first name repeats a
/// name of the record before it and its own names are distinct.
proof fn lemma_group_append_record(fields: Seq<SpecField>, r: Seq<SpecField>, j: int)
    requires
        1 <= j <= r.len(),
        forall|i1: int, i2: int| 0 <= i1 < i2 < r.len() ==> (#[trigger] r[i1]).name != (
        #[trigger] r[i2]).name,
        fields.len() > 0 ==> spec_group(fields).len() > 0 && rec_contains_name(
            spec_group(fields).last(),
            r[0].name,
        ),
    ensures
        spec_group(fields + r.subrange(0, j)) == spec_group(fields).push(r.subrange(0, j)),
    decreases j,
{
    let acc = spec_group(fields);
    if j == 1 {
        let ext = fields + r.subrange(0, 1);
        assert(ext.drop_last() =~= fields);
        assert(ext.last() == r[0]);
        assert(spec_group(ext) == group_step(acc, r[0]));
        if fields.len() == 0 {
            assert(acc =~= Seq::<Seq<SpecField>>::empty());
            assert(r.subrange(0, 1) =~= seq![r[0]]);
            assert(group_step(acc, r[0]) =~= acc.push(r.subrange(0, 1)));
        } else {
            assert(group_step(acc, r[0]) == acc.push(seq![r[0]]));
            assert(seq![r[0]] =~= r.subrange(0, 1));
        }
    } else {
        lemma_group_append_record(fields, r, j - 1);
        let ext = fields + r.subrange(0, j);
        assert(ext.drop_last() =~= fields + r.subrange(0, j - 1));
        assert(ext.last() == r[j - 1]);
        let part = r.subrange(0, j - 1);
        assert(!rec_contains_name(part, r[j - 1].name)) by {
            if rec_contains_name(part, r[j - 1].name) {
                let w = choose|w: int|
                    0 <= w < part.len() && (#[trigger] part[w]).name == r[j - 1].name;
                assert(part[w] == r[w]);
                assert(r[w].name != r[j - 1].name);
                assert(false);
            }
        }
        let acc2 = acc.push(part);
        assert(spec_group(ext) == group_step(acc2, r[j - 1]));
        assert(acc2.last() == part);
        assert(group_step(acc2, r[j - 1]) == acc2.update(acc2.len() - 1, part.push(r[j - 1])));
        assert(part.push(r[j - 1]) =~= r.subrange(0, j));
        assert(acc2.update(acc2.len() - 1, r.subrange(0, j)) =~= acc.push(r.subrange(0, j)));
    }
}

/// Grouping the flattened fields of a well-formed record stream restores the
/// stream's record boundaries exactly.
proof fn lemma_group_flatten(rs: Seq<Seq<SpecField>>)
    requires
        wf_records(rs),
    ensures
        spec_group(flatten_records(rs)) == rs,
    decreases rs.len(),
{
    if rs.len() == 0 {
        assert(spec_group(flatten_records(rs)) =~= rs);
    } else {
        let butlast = rs.drop_last();
        let r = rs.last();
        assert(wf_records(butlast)) by {
            assert forall|k: int| 0 <= k < butlast.len() implies (#[trigger] butlast[k]).len()
                >= 1 by {
                assert(butlast[k] == rs[k]);
            }
            assert forall|k: int, i: int|
                0 <= k < butlast.len() && 0 <= i < butlast[k].len() implies wf_name(
                (#[trigger] butlast[k][i]).name,
            ) by {
                assert(butlast[k] == rs[k]);
            }
            assert forall|k: int, i1: int, i2: int|
                0 <= k < butlast.len() && 0 <= i1 < i2 < butlast[k].len() implies (
            #[trigger] butlast[k][i1]).name != (#[trigger] butlast[k][i2]).name by {
                assert(butlast[k] == rs[k]);
            }
            assert forall|k: int| 1 <= k < butlast.len() implies rec_contains_name(
                #[trigger] butlast[k - 1],
                butlast[k][0].name,
            ) by {
                assert(butlast[k] == rs[k]);
                assert(butlast[k - 1] == rs[k - 1]);
            }
        }
        lemma_group_flatten(butlast);
        let fields = flatten_records(butlast);
        if butlast.len() > 0 {
            assert(fields == flatten_records(butlast.drop_last()) + butlast.last());
            assert(butlast.last() == rs[rs.len() - 2]);
            assert(butlast.last().len() >= 1);
            assert(fields.len() > 0);
            lemma_group_len_pos(fields);
            assert(spec_group(fields).last() == butlast.last());
            assert(rec_contains_name(rs[rs.len() - 2], rs[rs.len() - 1][0].name));
        } else {
            assert(fields =~= Seq::<SpecField>::empty());
        }
        assert(r.len() >= 1);
        lemma_group_append_record(fields, r, r.len() as int);
        assert(r.subrange(0, r.len() as int) =~= r);
        assert(flatten_records(rs) == fields + r);
        assert(butlast.push(r) =~= rs);
    }
}

/// Every field of a well-formed stream has a well-formed name.
proof fn lemma_flat_names_wf(rs: Seq<Seq<SpecField>>)
    requires
        wf_records(rs),
    ensures
        forall|t: int|
            0 <= t < flatten_records(rs).len() ==> wf_name(
                (#[trigger] flatten_records(rs)[t]).name,
            ),
    decreases rs.len(),
{
    if rs.len() > 0 {
        let butlast = rs.drop_last();
        assert(wf_records(butlast)) by {
            assert forall|k: int| 0 <= k < butlast.len() implies (#[trigger] butlast[k]).len()
                >= 1 by {
                assert(butlast[k] == rs[k]);
            }
            assert forall|k: int, i: int|
                0 <= k < butlast.len() && 0 <= i < butlast[k].len() implies wf_name(
                (#[trigger] butlast[k][i]).name,
            ) by {
                assert(butlast[k] == rs[k]);
            }
            assert forall|k: int, i1: int, i2: int|
                0 <= k < butlast.len() && 0 <= i1 < i2 < butlast[k].len() implies (
            #[trigger] butlast[k][i1]).name != (#[trigger] butlast[k][i2]).name by {
                assert(butlast[k] == rs[k]);
            }
            assert forall|k: int| 1 <= k < butlast.len() implies rec_contains_name(
                #[trigger] butlast[k - 1],
                butlast[k][0].name,
            ) by {
                assert(butlast[k] == rs[k]);
                assert(butlast[k - 1] == rs[k - 1]);
            }
        }
        lemma_flat_names_wf(butlast);
        let prev = flatten_records(butlast);
        let flat = flatten_records(rs);
        assert(flat == prev + rs.last());
        assert forall|t: int| 0 <= t < flat.len() implies wf_name(
            (#[trigger] flat[t]).name,
        ) by {
            if t < prev.len() {
                assert(flat[t] == prev[t]);
            } else {
                assert(flat[t] == rs.last()[t - prev.len()]);
                assert(rs.last() == rs[rs.len() - 1]);
                assert(wf_name(rs[rs.len() - 1][t - prev.len()].name));
            }
        }
    }
}

/// Law: decoding an encoded well-formed record stream terminated by `OK`
/// yields exactly the records encoded, boundaries inferred from the repeated
/// first names.
pub proof fn lemma_decode_encode(rs: Seq<Seq<SpecField>>)
    requires
        wf_records(rs),
    ensures
        spec_decode(lines_of_fields(flatten_records(rs)).push(ok_line())) == SpecDecoded::Records(
            rs,
        ),
{
    let flat = flatten_records(rs);
    let body = lines_of_fields(flat);
    let lines = body.push(ok_line());
    assert(lines.last() == ok_line());
    assert(lines.drop_last() =~= body);
    lemma_flat_names_wf(rs);
    lemma_parse_all_fields(flat);
    lemma_no_bad_from(body, 0);
    lemma_group_flatten(rs);
}

} // verus!
