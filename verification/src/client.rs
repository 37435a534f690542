//! The protocol client's logic: serializing commands and atomic batches to
//! wire lines, decoding batched replies with their failure position, and a
//! session guard that admits one outstanding request at a time so replies
//! pair with requests in strict send order. The socket itself lives outside
//! the library; this module maps values to lines and lines to values.

use vstd::prelude::*;

use crate::codec::{
    decode, decode_fields, is_ack_line, is_ok_line, lines_view, parse_ack, records_view,
    spec_decode, spec_group, spec_parse_ack, spec_parse_all, decode_matches, first_bad_line,
    is_ack_start, ok_line, Ack, DecodeError, Field, Reply, SpecAck, SpecField, BYTE_SPACE,
};

verus! {

pub const BYTE_QUOTE: u8 = 34;
pub const BYTE_NEWLINE: u8 = 10;

/// An outbound request: a verb plus an ordered list of string arguments,
/// immutable once constructed.
#[derive(Debug, Clone, PartialEq, Eq)]
pub struct Command {
    pub verb: Vec<u8>,
    pub args: Vec<Vec<u8>>,
}

/// The byte occurs in `s`.
pub open spec fn has_byte(s: Seq<u8>, b: u8) -> bool {
    exists|i: int| 0 <= i < s.len() && #[trigger] s[i] == b
}

/// A verb the wire grammar can carry: nonempty, no space, quote or newline.
pub open spec fn wf_verb(v: Seq<u8>) -> bool {
    v.len() >= 1 && !has_byte(v, BYTE_SPACE) && !has_byte(v, BYTE_QUOTE) && !has_byte(
        v,
        BYTE_NEWLINE,
    )
}

/// An argument the wire grammar can carry: no quote or newline (spaces are
/// handled by quoting).
pub open spec fn wf_arg(a: Seq<u8>) -> bool {
    !has_byte(a, BYTE_QUOTE) && !has_byte(a, BYTE_NEWLINE)
}

/// A command whose encoding the server can read back unambiguously.
pub open spec fn wf_command(c: Command) -> bool {
    &&& wf_verb(c.verb@)
    &&& forall|i: int| 0 <= i < c.args@.len() ==> wf_arg((#[trigger] c.args@[i])@)
}

/// An argument on the wire: quoted exactly when it contains a space.
pub open spec fn quoted_arg(a: Seq<u8>) -> Seq<u8> {
    if has_byte(a, BYTE_SPACE) {
        seq![BYTE_QUOTE] + a + seq![BYTE_QUOTE]
    } else {
        a
    }
}

/// The wire line of a command: the verb, then each argument separated by a
/// space, quoted when it contains a space.
pub open spec fn spec_encode_command(verb: Seq<u8>, args: Seq<Seq<u8>>) -> Seq<u8>
    decreases args.len(),
{
    if args.len() == 0 {
        verb
    } else {
        spec_encode_command(verb, args.drop_last()) + seq![BYTE_SPACE] + quoted_arg(args.last())
    }
}

/// The views of a command's arguments.
pub open spec fn args_view(args: Seq<Vec<u8>>) -> Seq<Seq<u8>> {
    lines_view(args)
}

/// Append `src` to `dst`.
fn append_bytes(dst: &mut Vec<u8>, src: &Vec<u8>)
    ensures
        final(dst)@ == old(dst)@ + src@,
{
    let mut i: usize = 0;
    proof {
        assert(dst@ =~= old(dst)@ + src@.subrange(0, 0));
    }
    while i < src.len()
        invariant
            i <= src@.len(),
            dst@ == old(dst)@ + src@.subrange(0, i as int),
        decreases src@.len() - i,
    {
        dst.push(src[i]);
        proof {
            assert(old(dst)@ + src@.subrange(0, i + 1 as int) =~= (old(dst)@ + src@.subrange(
                0,
                i as int,
            )).push(src@[i as int]));
        }
        i = i + 1;
    }
    proof {
        assert(src@.subrange(0, src@.len() as int) =~= src@);
    }
}

/// The byte occurs in `s`.
fn scan_byte(s: &Vec<u8>, b: u8) -> (r: bool)
    ensures
        r == has_byte(s@, b),
{
    let mut i: usize = 0;
    while i < s.len()
        invariant
            i <= s@.len(),
            forall|t: int| 0 <= t < i ==> #[trigger] s@[t] != b,
        decreases s@.len() - i,
    {
        if s[i] == b {
            return true;
        }
        i = i + 1;
    }
    false
}

/// Serialize one command to its wire line.
pub fn encode_command(c: &Command) -> (r: Vec<u8>)
    ensures
        r@ == spec_encode_command(c.verb@, args_view(c.args@)),
{
    let mut r: Vec<u8> = Vec::new();
    append_bytes(&mut r, &c.verb);
    let mut i: usize = 0;
    proof {
        assert(args_view(c.args@.subrange(0, 0)) =~= Seq::<Seq<u8>>::empty());
        assert(r@ =~= spec_encode_command(c.verb@, args_view(c.args@.subrange(0, 0))));
    }
    while i < c.args.len()
        invariant
            i <= c.args@.len(),
            r@ == spec_encode_command(c.verb@, args_view(c.args@.subrange(0, i as int))),
        decreases c.args@.len() - i,
    {
        let a: &Vec<u8> = &c.args[i];
        r.push(BYTE_SPACE);
        if scan_byte(a, BYTE_SPACE) {
            r.push(BYTE_QUOTE);
            append_bytes(&mut r, a);
            r.push(BYTE_QUOTE);
        } else {
            append_bytes(&mut r, a);
        }
        proof {
            let pv = args_view(c.args@.subrange(0, i as int));
            let nv = args_view(c.args@.subrange(0, i + 1 as int));
            assert(nv.drop_last() =~= pv);
            assert(nv.last() == c.args@[i as int]@);
            assert(r@ =~= spec_encode_command(c.verb@, pv) + seq![BYTE_SPACE] + quoted_arg(
                c.args@[i as int]@,
            ));
        }
        i = i + 1;
    }
    proof {
        assert(c.args@.subrange(0, c.args@.len() as int) =~= c.args@);
    }
    r
}

/// The batch-opening verb line (`command_list_ok_begin`).
pub open spec fn batch_begin_line() -> Seq<u8> {
    seq![
        99u8, 111u8, 109u8, 109u8, 97u8, 110u8, 100u8, 95u8, 108u8, 105u8, 115u8, 116u8, 95u8,
        111u8, 107u8, 95u8, 98u8, 101u8, 103u8, 105u8, 110u8,
    ]
}

/// The batch-closing verb line (`command_list_end`).
pub open spec fn batch_end_line() -> Seq<u8> {
    seq![
        99u8, 111u8, 109u8, 109u8, 97u8, 110u8, 100u8, 95u8, 108u8, 105u8, 115u8, 116u8, 95u8,
        101u8, 110u8, 100u8,
    ]
}

/// The per-command success separator line (`list_OK`).
pub open spec fn list_ok_line() -> Seq<u8> {
    seq![108u8, 105u8, 115u8, 116u8, 95u8, 79u8, 75u8]
}

/// Build the batch-opening verb line.
pub fn batch_begin_bytes() -> (r: Vec<u8>)
    ensures
        r@ == batch_begin_line(),
{
    let mut v: Vec<u8> = Vec::new();
    v.push(99);
    v.push(111);
    v.push(109);
    v.push(109);
    v.push(97);
    v.push(110);
    v.push(100);
    v.push(95);
    v.push(108);
    v.push(105);
    v.push(115);
    v.push(116);
    v.push(95);
    v.push(111);
    v.push(107);
    v.push(95);
    v.push(98);
    v.push(101);
    v.push(103);
    v.push(105);
    v.push(110);
    proof {
        assert(v@ =~= batch_begin_line());
    }
    v
}

/// Build the batch-closing verb line.
pub fn batch_end_bytes() -> (r: Vec<u8>)
    ensures
        r@ == batch_end_line(),
{
    let mut v: Vec<u8> = Vec::new();
    v.push(99);
    v.push(111);
    v.push(109);
    v.push(109);
    v.push(97);
    v.push(110);
    v.push(100);
    v.push(95);
    v.push(108);
    v.push(105);
    v.push(115);
    v.push(116);
    v.push(95);
    v.push(101);
    v.push(110);
    v.push(100);
    proof {
        assert(v@ =~= batch_end_line());
    }
    v
}

/// Pushing a vector of bytes onto a vector of lines pushes its view.
proof fn lemma_lines_view_push(pre: Seq<Vec<u8>>, v: Vec<u8>)
    ensures
        lines_view(pre.push(v)) == lines_view(pre).push(v@),
{
    assert forall|w: int| 0 <= w < pre.len() + 1 implies lines_view(pre.push(v))[w] == lines_view(
        pre,
    ).push(v@)[w] by {
        assert(lines_view(pre.push(v))[w] == pre.push(v)[w]@);
        if w < pre.len() {
            assert(pre.push(v)[w] == pre[w]);
            assert(lines_view(pre)[w] == pre[w]@);
        }
    }
    assert(lines_view(pre.push(v)) =~= lines_view(pre).push(v@));
}

/// The line is the per-command success separator.
pub fn is_list_ok_line(l: &Vec<u8>) -> (r: bool)
    ensures
        r == (l@ == list_ok_line()),
{
    let r = l.len() == 7 && l[0] == 108 && l[1] == 105 && l[2] == 115 && l[3] == 116 && l[4] == 95
        && l[5] == 79 && l[6] == 75;
    proof {
        if r {
            assert(l@ =~= list_ok_line());
        }
    }
    r
}

/// The wire lines of the commands of a batch, one line each, in order.
pub open spec fn batch_command_lines(cmds: Seq<Command>) -> Seq<Seq<u8>>
    decreases cmds.len(),
{
    if cmds.len() == 0 {
        Seq::empty()
    } else {
        batch_command_lines(cmds.drop_last()).push(
            spec_encode_command(cmds.last().verb@, args_view(cmds.last().args@)),
        )
    }
}

/// The wire lines of an atomic batch: the opening verb, each command's line
/// in order, the closing verb.
pub open spec fn spec_encode_batch(cmds: Seq<Command>) -> Seq<Seq<u8>> {
    seq![batch_begin_line()] + batch_command_lines(cmds) + seq![batch_end_line()]
}

/// Serialize an ordered batch of commands as one atomic protocol unit.
pub fn encode_batch(cmds: &Vec<Command>) -> (r: Vec<Vec<u8>>)
    ensures
        lines_view(r@) == spec_encode_batch(cmds@),
{
    let mut r: Vec<Vec<u8>> = Vec::new();
    r.push(batch_begin_bytes());
    let mut i: usize = 0;
    proof {
        assert(batch_command_lines(cmds@.subrange(0, 0)) =~= Seq::<Seq<u8>>::empty());
        assert(lines_view(r@) =~= seq![batch_begin_line()] + batch_command_lines(
            cmds@.subrange(0, 0),
        ));
    }
    while i < cmds.len()
        invariant
            i <= cmds@.len(),
            lines_view(r@) == seq![batch_begin_line()] + batch_command_lines(
                cmds@.subrange(0, i as int),
            ),
        decreases cmds@.len() - i,
    {
        let line = encode_command(&cmds[i]);
        let ghost pre = r@;
        let ghost lv = line@;
        r.push(line);
        proof {
            assert(cmds@.subrange(0, i + 1 as int).drop_last() =~= cmds@.subrange(0, i as int));
            assert(cmds@.subrange(0, i + 1 as int).last() == cmds@[i as int]);
            assert(r@ == pre.push(r@[pre.len() as int]));
            assert(lines_view(pre).len() == pre.len());
            let goal = seq![batch_begin_line()] + batch_command_lines(
                cmds@.subrange(0, i + 1 as int),
            );
            assert forall|w: int| 0 <= w < pre.len() + 1 implies lines_view(r@)[w] == goal[w] by {
                assert(lines_view(r@)[w] == r@[w]@);
                if w < pre.len() {
                    assert(r@[w] == pre[w]);
                    assert(lines_view(pre)[w] == pre[w]@);
                } else {
                    assert(r@[w]@ == lv);
                }
            }
            assert(lines_view(r@) =~= goal);
        }
        i = i + 1;
    }
    r.push(batch_end_bytes());
    proof {
        assert(cmds@.subrange(0, cmds@.len() as int) =~= cmds@);
        assert(lines_view(r@) =~= spec_encode_batch(cmds@));
    }
    r
}

/// The views of a vector of line groups.
pub open spec fn groups_view(g: Seq<Vec<Vec<u8>>>) -> Seq<Seq<Seq<u8>>> {
    g.map_values(|x: Vec<Vec<u8>>| lines_view(x@))
}

/// The views of per-command decoded records.
pub open spec fn batch_records_view(v: Seq<Vec<Vec<Field>>>) -> Seq<Seq<Seq<SpecField>>> {
    v.map_values(|g: Vec<Vec<Field>>| records_view(g@))
}

/// A batch reply split on the per-command separators: the complete groups,
/// and whatever lines follow the last separator.
pub struct SpecBatchSplit {
    pub groups: Seq<Seq<Seq<u8>>>,
    pub trailing: Seq<Seq<u8>>,
}

/// Fold one body line into the split state.
pub open spec fn split_step(s: SpecBatchSplit, l: Seq<u8>) -> SpecBatchSplit {
    if l == list_ok_line() {
        SpecBatchSplit { groups: s.groups.push(s.trailing), trailing: Seq::empty() }
    } else {
        SpecBatchSplit { groups: s.groups, trailing: s.trailing.push(l) }
    }
}

/// Split a batch body on the per-command separators.
pub open spec fn spec_split(body: Seq<Seq<u8>>) -> SpecBatchSplit
    decreases body.len(),
{
    if body.len() == 0 {
        SpecBatchSplit { groups: Seq::empty(), trailing: Seq::empty() }
    } else {
        split_step(spec_split(body.drop_last()), body.last())
    }
}

/// Decode every group as one command's records; nothing if a line of any
/// group is malformed.
pub open spec fn groups_decode(groups: Seq<Seq<Seq<u8>>>) -> Option<Seq<Seq<Seq<SpecField>>>>
    decreases groups.len(),
{
    if groups.len() == 0 {
        Some(Seq::empty())
    } else {
        match groups_decode(groups.drop_last()) {
            None => None,
            Some(rs) => if first_bad_line(groups.last(), 0) is Some {
                None
            } else {
                Some(rs.push(spec_group(spec_parse_all(groups.last()))))
            },
        }
    }
}

proof fn lemma_groups_decode_len(groups: Seq<Seq<Seq<u8>>>)
    ensures
        groups_decode(groups) matches Some(rs) ==> rs.len() == groups.len(),
    decreases groups.len(),
{
    if groups.len() > 0 {
        lemma_groups_decode_len(groups.drop_last());
    }
}

proof fn lemma_groups_decode_bad(groups: Seq<Seq<Seq<u8>>>, j: int)
    requires
        0 <= j < groups.len(),
        first_bad_line(groups[j], 0) is Some,
    ensures
        groups_decode(groups) is None,
    decreases groups.len(),
{
    if j < groups.len() - 1 {
        assert(groups.drop_last()[j] == groups[j]);
        lemma_groups_decode_bad(groups.drop_last(), j);
    }
}

/// Why a batch reply failed to decode.
#[derive(Debug, Clone, Copy, PartialEq, Eq, Structural)]
pub enum BatchDecodeError {
    /// Some line of a command's output fits no shape the grammar allows.
    MalformedLine,
    /// The final line began like a failure line but did not parse.
    MalformedAck,
    /// The reply did not end with `OK` or an `ACK` line.
    MissingTerminator,
    /// Lines followed the last per-command separator before the terminator.
    TrailingLines,
    /// A successful reply did not hold one group per command sent.
    WrongCount,
    /// The failure line's command index disagrees with the number of
    /// completed commands, or is not below the batch size.
    IndexMismatch,
}

/// A decoded batch reply: every command's records in order, or the records
/// of the commands completed before the failing one, with the failure.
#[derive(Debug)]
pub enum BatchReply {
    AllOk(Vec<Vec<Vec<Field>>>),
    Failed { completed: Vec<Vec<Vec<Field>>>, ack: Ack },
}

/// The decoded meaning of a complete batch reply to `n` commands.
pub enum SpecBatchDecoded {
    AllOk(Seq<Seq<Seq<SpecField>>>),
    Failed(Seq<Seq<Seq<SpecField>>>, SpecAck),
    Bad(BatchDecodeError),
}

/// Decode a complete batch reply: the groups before the terminator, checked
/// against the batch size on success, or against the failure index.
pub open spec fn spec_decode_batch(lines: Seq<Seq<u8>>, n: int) -> SpecBatchDecoded {
    if lines.len() == 0 {
        SpecBatchDecoded::Bad(BatchDecodeError::MissingTerminator)
    } else {
        let sp = spec_split(lines.drop_last());
        if lines.last() == ok_line() {
            if sp.trailing.len() > 0 {
                SpecBatchDecoded::Bad(BatchDecodeError::TrailingLines)
            } else if sp.groups.len() != n {
                SpecBatchDecoded::Bad(BatchDecodeError::WrongCount)
            } else {
                match groups_decode(sp.groups) {
                    None => SpecBatchDecoded::Bad(BatchDecodeError::MalformedLine),
                    Some(rs) => SpecBatchDecoded::AllOk(rs),
                }
            }
        } else if is_ack_start(lines.last()) {
            match spec_parse_ack(lines.last()) {
                None => SpecBatchDecoded::Bad(BatchDecodeError::MalformedAck),
                Some(a) => if sp.trailing.len() > 0 {
                    SpecBatchDecoded::Bad(BatchDecodeError::TrailingLines)
                } else if a.command_index != sp.groups.len() || sp.groups.len() >= n {
                    SpecBatchDecoded::Bad(BatchDecodeError::IndexMismatch)
                } else {
                    match groups_decode(sp.groups) {
                        None => SpecBatchDecoded::Bad(BatchDecodeError::MalformedLine),
                        Some(rs) => SpecBatchDecoded::Failed(rs, a),
                    }
                },
            }
        } else {
            SpecBatchDecoded::Bad(BatchDecodeError::MissingTerminator)
        }
    }
}

/// The exec batch decode result means exactly what `spec_decode_batch`
/// says.
pub open spec fn batch_matches(r: Result<BatchReply, BatchDecodeError>, d: SpecBatchDecoded) -> bool {
    match d {
        SpecBatchDecoded::AllOk(rs) => r matches Ok(BatchReply::AllOk(v)) && batch_records_view(v@)
            == rs,
        SpecBatchDecoded::Failed(rs, a) => r matches Ok(BatchReply::Failed { completed, ack })
            && batch_records_view(completed@) == rs && ack@ == a,
        SpecBatchDecoded::Bad(e) => r == Err::<BatchReply, BatchDecodeError>(e),
    }
}

/// Decode each collected group as one command's records.
fn decode_groups(groups: &Vec<Vec<Vec<u8>>>) -> (r: Result<Vec<Vec<Vec<Field>>>, BatchDecodeError>)
    ensures
        match groups_decode(groups_view(groups@)) {
            Some(rs) => r matches Ok(v) && batch_records_view(v@) == rs,
            None => r == Err::<Vec<Vec<Vec<Field>>>, BatchDecodeError>(
                BatchDecodeError::MalformedLine,
            ),
        },
{
    let mut out: Vec<Vec<Vec<Field>>> = Vec::new();
    let mut j: usize = 0;
    proof {
        assert(groups_view(groups@.subrange(0, 0)) =~= Seq::<Seq<Seq<u8>>>::empty());
        assert(batch_records_view(out@) =~= Seq::<Seq<Seq<SpecField>>>::empty());
        assert(groups_decode(groups_view(groups@.subrange(0, 0))) == Some(batch_records_view(out@)));
    }
    while j < groups.len()
        invariant
            j <= groups@.len(),
            groups_decode(groups_view(groups@.subrange(0, j as int))) == Some(
                batch_records_view(out@),
            ),
        decreases groups@.len() - j,
    {
        proof {
            assert(groups_view(groups@)[j as int] == lines_view(groups@[j as int]@));
            assert(groups_view(groups@.subrange(0, j + 1 as int)).drop_last() =~= groups_view(
                groups@.subrange(0, j as int),
            ));
            assert(groups_view(groups@.subrange(0, j + 1 as int)).last() == lines_view(
                groups@[j as int]@,
            ));
        }
        match decode_fields(&groups[j]) {
            Err(_) => {
                proof {
                    assert(groups_view(groups@)[j as int] == lines_view(groups@[j as int]@));
                    lemma_groups_decode_bad(groups_view(groups@), j as int);
                }
                return Err(BatchDecodeError::MalformedLine);
            },
            Ok(v) => {
                let ghost pre = out@;
                let ghost rv = records_view(v@);
                out.push(v);
                proof {
                    assert(out@ == pre.push(out@[pre.len() as int]));
                    assert(batch_records_view(pre).len() == pre.len());
                    assert forall|w: int|
                        0 <= w < pre.len() + 1 implies batch_records_view(out@)[w]
                        == batch_records_view(pre).push(rv)[w] by {
                        assert(batch_records_view(out@)[w] == records_view(out@[w]@));
                        if w < pre.len() {
                            assert(out@[w] == pre[w]);
                            assert(batch_records_view(pre)[w] == records_view(pre[w]@));
                        }
                    }
                    assert(batch_records_view(out@) =~= batch_records_view(pre).push(rv));
                }
            },
        }
        j = j + 1;
    }
    proof {
        assert(groups@.subrange(0, groups@.len() as int) =~= groups@);
    }
    Ok(out)
}

/// Decode a complete reply to an `n`-command atomic batch. When command `k`
/// fails, the result carries exactly the `k` completed commands' records and
/// the failure naming index `k`; commands at and after `k` are never
/// presented as succeeded.
pub fn decode_batch(lines: &Vec<Vec<u8>>, n: usize) -> (r: Result<BatchReply, BatchDecodeError>)
    ensures
        batch_matches(r, spec_decode_batch(lines_view(lines@), n as int)),
        r matches Ok(BatchReply::AllOk(v)) ==> v@.len() == n,
        r matches Ok(BatchReply::Failed { completed, ack }) ==> completed@.len()
            == ack.command_index && ack.command_index < n,
{
    if lines.len() == 0 {
        return Err(BatchDecodeError::MissingTerminator);
    }
    let nl: usize = lines.len();
    let mut groups: Vec<Vec<Vec<u8>>> = Vec::new();
    let mut current: Vec<Vec<u8>> = Vec::new();
    let mut i: usize = 0;
    proof {
        assert(lines_view(lines@).subrange(0, 0) =~= Seq::<Seq<u8>>::empty());
        assert(groups_view(groups@) =~= Seq::<Seq<Seq<u8>>>::empty());
        assert(lines_view(current@) =~= Seq::<Seq<u8>>::empty());
    }
    while i < nl - 1
        invariant
            nl == lines@.len(),
            nl >= 1,
            i <= nl - 1,
            spec_split(lines_view(lines@).subrange(0, i as int)) == (SpecBatchSplit {
                groups: groups_view(groups@),
                trailing: lines_view(current@),
            }),
        decreases nl - i,
    {
        let li: &Vec<u8> = &lines[i];
        proof {
            assert(lines_view(lines@)[i as int] == lines@[i as int]@);
            assert(lines_view(lines@).subrange(0, i + 1 as int).drop_last() =~= lines_view(
                lines@,
            ).subrange(0, i as int));
            assert(lines_view(lines@).subrange(0, i + 1 as int).last() == lines@[i as int]@);
        }
        if is_list_ok_line(li) {
            let ghost gpre = groups@;
            let ghost cur_v = lines_view(current@);
            groups.push(current);
            current = Vec::new();
            proof {
                assert(groups@ == gpre.push(groups@[gpre.len() as int]));
                assert(groups_view(gpre).len() == gpre.len());
                assert forall|w: int|
                    0 <= w < gpre.len() + 1 implies groups_view(groups@)[w] == groups_view(
                    gpre,
                ).push(cur_v)[w] by {
                    assert(groups_view(groups@)[w] == lines_view(groups@[w]@));
                    if w < gpre.len() {
                        assert(groups@[w] == gpre[w]);
                        assert(groups_view(gpre)[w] == lines_view(gpre[w]@));
                    }
                }
                assert(groups_view(groups@) =~= groups_view(gpre).push(cur_v));
                assert(lines_view(current@) =~= Seq::<Seq<u8>>::empty());
            }
        } else {
            let copied = copy_line(li);
            let ghost pre = current@;
            current.push(copied);
            proof {
                lemma_lines_view_push(pre, current[current.len() - 1]);
                assert(current@ == pre.push(current@[pre.len() as int]));
                assert(lines_view(current@) =~= lines_view(pre).push(lines@[i as int]@));
            }
        }
        i = i + 1;
    }
    proof {
        assert(lines_view(lines@).subrange(0, nl - 1 as int) =~= lines_view(lines@).drop_last());
    }
    let last: &Vec<u8> = &lines[nl - 1];
    proof {
        assert(lines_view(lines@).last() == lines@[nl - 1]@);
    }
    if is_ok_line(last) {
        if current.len() > 0 {
            proof {
                assert(lines_view(current@).len() == current@.len());
            }
            return Err(BatchDecodeError::TrailingLines);
        }
        proof {
            assert(lines_view(current@).len() == current@.len());
        }
        if groups.len() != n {
            proof {
                assert(groups_view(groups@).len() == groups@.len());
            }
            return Err(BatchDecodeError::WrongCount);
        }
        proof {
            assert(groups_view(groups@).len() == groups@.len());
            lemma_groups_decode_len(groups_view(groups@));
        }
        match decode_groups(&groups) {
            Ok(v) => {
                proof {
                    assert(batch_records_view(v@).len() == v@.len());
                }
                Ok(BatchReply::AllOk(v))
            },
            Err(e) => Err(e),
        }
    } else if is_ack_line(last) {
        match parse_ack(last) {
            None => Err(BatchDecodeError::MalformedAck),
            Some(a) => {
                if current.len() > 0 {
                    proof {
                        assert(lines_view(current@).len() == current@.len());
                    }
                    return Err(BatchDecodeError::TrailingLines);
                }
                proof {
                    assert(lines_view(current@).len() == current@.len());
                    assert(groups_view(groups@).len() == groups@.len());
                }
                let idx_ok = (a.command_index as usize) == groups.len() && groups.len() < n;
                if !idx_ok {
                    return Err(BatchDecodeError::IndexMismatch);
                }
                proof {
                    lemma_groups_decode_len(groups_view(groups@));
                }
                match decode_groups(&groups) {
                    Ok(v) => {
                        proof {
                            assert(batch_records_view(v@).len() == v@.len());
                        }
                        Ok(BatchReply::Failed { completed: v, ack: a })
                    },
                    Err(e) => Err(e),
                }
            },
        }
    } else {
        Err(BatchDecodeError::MissingTerminator)
    }
}

/// The `list` verb.
pub open spec fn list_verb() -> Seq<u8> {
    seq![108u8, 105u8, 115u8, 116u8]
}

/// The `find` verb.
pub open spec fn find_verb() -> Seq<u8> {
    seq![102u8, 105u8, 110u8, 100u8]
}

/// The `findadd` verb.
pub open spec fn findadd_verb() -> Seq<u8> {
    seq![102u8, 105u8, 110u8, 100u8, 97u8, 100u8, 100u8]
}

/// Filter pairs flattened to wire arguments: tag then exact value, in
/// order, ANDed by the server.
pub open spec fn filter_args(fs: Seq<(Vec<u8>, Vec<u8>)>) -> Seq<Seq<u8>>
    decreases fs.len(),
{
    if fs.len() == 0 {
        Seq::empty()
    } else {
        filter_args(fs.drop_last()) + seq![fs.last().0@, fs.last().1@]
    }
}

/// Append filter pairs to a command's arguments.
fn push_filter_args(args: &mut Vec<Vec<u8>>, filters: &Vec<(Vec<u8>, Vec<u8>)>)
    ensures
        args_view(final(args)@) == args_view(old(args)@) + filter_args(filters@),
{
    let mut i: usize = 0;
    proof {
        assert(filter_args(filters@.subrange(0, 0)) =~= Seq::<Seq<u8>>::empty());
        assert(args_view(args@) =~= args_view(old(args)@) + filter_args(filters@.subrange(0, 0)));
    }
    while i < filters.len()
        invariant
            i <= filters@.len(),
            args_view(args@) == args_view(old(args)@) + filter_args(filters@.subrange(0, i as int)),
        decreases filters@.len() - i,
    {
        let tag = copy_line(&filters[i].0);
        let value = copy_line(&filters[i].1);
        let ghost pre = args@;
        args.push(tag);
        proof {
            lemma_lines_view_push(pre, args[args.len() - 1]);
        }
        let ghost pre2 = args@;
        args.push(value);
        proof {
            lemma_lines_view_push(pre2, args[args.len() - 1]);
            assert(filters@.subrange(0, i + 1 as int).drop_last() =~= filters@.subrange(
                0,
                i as int,
            ));
            assert(filters@.subrange(0, i + 1 as int).last() == filters@[i as int]);
            assert(args_view(args@) =~= args_view(old(args)@) + filter_args(
                filters@.subrange(0, i + 1 as int),
            ));
        }
        i = i + 1;
    }
    proof {
        assert(filters@.subrange(0, filters@.len() as int) =~= filters@);
    }
}

/// The `list <tag> (tag value)*` command: list the distinct values of a tag
/// among entries matching the filters.
pub fn list_tag_command(tag: &Vec<u8>, filters: &Vec<(Vec<u8>, Vec<u8>)>) -> (c: Command)
    ensures
        c.verb@ == list_verb(),
        args_view(c.args@) == seq![tag@] + filter_args(filters@),
{
    let mut verb: Vec<u8> = Vec::new();
    verb.push(108);
    verb.push(105);
    verb.push(115);
    verb.push(116);
    proof {
        assert(verb@ =~= list_verb());
    }
    let mut args: Vec<Vec<u8>> = Vec::new();
    args.push(copy_line(tag));
    proof {
        lemma_lines_view_push(Seq::empty(), args[0]);
        assert(args_view(args@) =~= seq![tag@]);
    }
    push_filter_args(&mut args, filters);
    Command { verb, args }
}

/// The `find (tag value)*` command: fetch the entries matching the filters
/// exactly.
pub fn find_command(filters: &Vec<(Vec<u8>, Vec<u8>)>) -> (c: Command)
    ensures
        c.verb@ == find_verb(),
        args_view(c.args@) == filter_args(filters@),
{
    let mut verb: Vec<u8> = Vec::new();
    verb.push(102);
    verb.push(105);
    verb.push(110);
    verb.push(100);
    proof {
        assert(verb@ =~= find_verb());
    }
    let mut args: Vec<Vec<u8>> = Vec::new();
    proof {
        assert(args_view(args@) =~= Seq::<Seq<u8>>::empty());
    }
    push_filter_args(&mut args, filters);
    proof {
        assert(Seq::<Seq<u8>>::empty() + filter_args(filters@) =~= filter_args(filters@));
    }
    Command { verb, args }
}

/// The `findadd (tag value)*` command: enqueue the entries matching the
/// filters exactly.
pub fn find_add_command(filters: &Vec<(Vec<u8>, Vec<u8>)>) -> (c: Command)
    ensures
        c.verb@ == findadd_verb(),
        args_view(c.args@) == filter_args(filters@),
{
    let mut verb: Vec<u8> = Vec::new();
    verb.push(102);
    verb.push(105);
    verb.push(110);
    verb.push(100);
    verb.push(97);
    verb.push(100);
    verb.push(100);
    proof {
        assert(verb@ =~= findadd_verb());
    }
    let mut args: Vec<Vec<u8>> = Vec::new();
    proof {
        assert(args_view(args@) =~= Seq::<Seq<u8>>::empty());
    }
    push_filter_args(&mut args, filters);
    proof {
        assert(Seq::<Seq<u8>>::empty() + filter_args(filters@) =~= filter_args(filters@));
    }
    Command { verb, args }
}

/// A session refused to start or finish a request.
#[derive(Debug, Clone, Copy, PartialEq, Eq, Structural)]
pub enum SessionError {
    /// A request is already outstanding; the protocol admits one at a time.
    Busy,
}

/// The send/receive sequencing cursor of one connection: at most one request
/// outstanding, so every reply pairs with the request that opened it, in
/// strict send order.
#[derive(Debug)]
pub struct Session {
    pub outstanding: Option<Command>,
}

impl Session {
    /// A fresh session with no request in flight.
    pub fn new() -> (s: Session)
        ensures
            s.outstanding is None,
    {
        Session { outstanding: None }
    }

    /// Open a request: hand back its wire line and remember it as
    /// outstanding. Refused while another request is in flight, leaving the
    /// session unchanged.
    pub fn begin(&mut self, c: Command) -> (r: Result<Vec<u8>, SessionError>)
        ensures
            match old(self).outstanding {
                None => r matches Ok(w) && w@ == spec_encode_command(c.verb@, args_view(c.args@))
                    && final(self).outstanding == Some(c),
                Some(_) => r == Err::<Vec<u8>, SessionError>(SessionError::Busy) && *final(self)
                    == *old(self),
            },
    {
        match &self.outstanding {
            Some(_) => Err(SessionError::Busy),
            None => {
                let line = encode_command(&c);
                self.outstanding = Some(c);
                Ok(line)
            },
        }
    }

    /// Close the outstanding request with the reply lines read for it, and
    /// decode them. The session is free again afterwards.
    pub fn complete(&mut self, reply_lines: &Vec<Vec<u8>>) -> (r: Result<Reply, DecodeError>)
        requires
            old(self).outstanding is Some,
        ensures
            final(self).outstanding is None,
            decode_matches(r, spec_decode(lines_view(reply_lines@))),
    {
        self.outstanding = None;
        decode(reply_lines)
    }
}

/// Copy one line.
fn copy_line(l: &Vec<u8>) -> (r: Vec<u8>)
    ensures
        r@ == l@,
{
    crate::text::copy_bytes(l)
}

/// The first field value of each record of a tag-listing reply: `list`
/// replies carry one field per record, so this is each record's listed
/// value.
pub fn tag_values(records: &Vec<Vec<Field>>) -> (r: Vec<Vec<u8>>)
    ensures
        r@.len() == records@.len(),
        forall|i: int|
            0 <= i < r@.len() ==> (#[trigger] r@[i])@ == if records@[i]@.len() > 0 {
                records@[i]@[0]@.value
            } else {
                Seq::<u8>::empty()
            },
{
    let mut r: Vec<Vec<u8>> = Vec::new();
    let mut i: usize = 0;
    while i < records.len()
        invariant
            i <= records@.len(),
            r@.len() == i,
            forall|t: int|
                0 <= t < i ==> (#[trigger] r@[t])@ == if records@[t]@.len() > 0 {
                    records@[t]@[0]@.value
                } else {
                    Seq::<u8>::empty()
                },
        decreases records@.len() - i,
    {
        let rec: &Vec<Field> = &records[i];
        if rec.len() > 0 {
            r.push(copy_line(&rec[0].value));
        } else {
            let empty: Vec<u8> = Vec::new();
            r.push(empty);
        }
        i = i + 1;
    }
    r
}

} // verus!
