//! Instructions mean the same in however many pieces they arrive.
use vstd::prelude::*;
use vstd::arithmetic::power::pow;
use vstd::arithmetic::power2::pow2;
use super::decoder::{apply_spec, instruction_spec, run_spec};
use super::dynamic::TableView;
use super::encoder::{action_spec, follow_spec, parse_action};
use super::prefix_int;
use super::prefix_string;

verus! {

proof fn lemma_groups_extend(value: int, k: nat, s: Seq<u8>, more: Seq<u8>)
    requires
        prefix_int::decode_groups(value, k, s).0 != Err::<u64, prefix_int::Error>(
            prefix_int::Error::UnexpectedEnd,
        ),
    ensures
        prefix_int::decode_groups(value, k, s + more) == (
            prefix_int::decode_groups(value, k, s).0,
            prefix_int::decode_groups(value, k, s).1 + more,
        ),
    decreases s.len(),
{
    let sum = value + (s[0] % 128) * pow(128, k);
    assert((s + more).skip(1) =~= s.skip(1) + more);
    assert((s + more)[0] == s[0]);
    if sum <= u64::MAX && s[0] >= 128 && k + 1 < prefix_int::MAX_CONTINUATION {
        lemma_groups_extend(sum, k + 1, s.skip(1), more);
    }
}

/// An integer that has arrived whole, or that is in error, is what it is whatever follows.
proof fn lemma_int_extends(size: u8, s: Seq<u8>, more: Seq<u8>)
    requires
        prefix_int::decode_spec(size, s).0 != Err::<(u8, u64), prefix_int::Error>(
            prefix_int::Error::UnexpectedEnd,
        ),
    ensures
        prefix_int::decode_spec(size, s + more) == (
            prefix_int::decode_spec(size, s).0,
            prefix_int::decode_spec(size, s).1 + more,
        ),
{
    let full = pow2(size as nat) as int;
    assert((s + more).skip(1) =~= s.skip(1) + more);
    assert((s + more)[0] == s[0]);
    if s[0] as int % full >= full - 1 {
        lemma_groups_extend(full - 1, 0, s.skip(1), more);
    }
}

/// A string that has arrived whole, or that is in error, is what it is whatever follows.
proof fn lemma_string_extends(size: u8, s: Seq<u8>, limit: usize, more: Seq<u8>)
    requires
        1 <= size <= 8,
        prefix_string::decode_limited_spec(size, s, limit).0 != Err::<
            Seq<u8>,
            prefix_string::Error,
        >(prefix_string::Error::UnexpectedEnd),
    ensures
        prefix_string::decode_limited_spec(size, s + more, limit) == (
            prefix_string::decode_limited_spec(size, s, limit).0,
            prefix_string::decode_limited_spec(size, s, limit).1 + more,
        ),
{
    let (prefix, rest) = prefix_int::decode_spec((size - 1) as u8, s);
    lemma_int_extends((size - 1) as u8, s, more);
    if let Ok((flags, len)) = prefix {
        if len <= limit && len <= rest.len() {
            assert((rest + more).take(len as int) =~= rest.take(len as int));
            assert((rest + more).skip(len as int) =~= rest.skip(len as int) + more);
        }
    }
}

/// An instruction of the encoder stream that has arrived whole, or that is in error, is what
/// it is whatever follows.
proof fn lemma_instruction_extends(table: TableView, limit: usize, s: Seq<u8>, more: Seq<u8>)
    requires
        s.len() > 0,
        !(instruction_spec(table, limit, s).0 matches Ok(None)),
    ensures
        instruction_spec(table, limit, s + more) == (
            instruction_spec(table, limit, s).0,
            instruction_spec(table, limit, s).1 + more,
        ),
{
    reveal(instruction_spec);
    assert((s + more)[0] == s[0]);
    let end = prefix_int::Error::UnexpectedEnd;
    let cut = prefix_string::Error::UnexpectedEnd;
    if prefix_int::decode_spec(5, s).0 != Err::<(u8, u64), prefix_int::Error>(end) {
        lemma_int_extends(5, s, more);
    }
    if prefix_int::decode_spec(6, s).0 != Err::<(u8, u64), prefix_int::Error>(end) {
        lemma_int_extends(6, s, more);
        let rest = prefix_int::decode_spec(6, s).1;
        if prefix_string::decode_limited_spec(8, rest, limit).0 != Err::<
            Seq<u8>,
            prefix_string::Error,
        >(cut) {
            lemma_string_extends(8, rest, limit, more);
        }
    }
    if prefix_string::decode_limited_spec(6, s, limit).0 != Err::<Seq<u8>, prefix_string::Error>(
        cut,
    ) {
        lemma_string_extends(6, s, limit, more);
        let rest = prefix_string::decode_limited_spec(6, s, limit).1;
        if prefix_string::decode_limited_spec(8, rest, limit).0 != Err::<
            Seq<u8>,
            prefix_string::Error,
        >(cut) {
            lemma_string_extends(8, rest, limit, more);
        }
    }
}

/// Following the encoder stream as its bytes arrive, with what was left unread kept for the
/// next time, does what following it in one piece does: the table is the same, and so is
/// the error where there is one.
pub proof fn encoder_stream_does_not_depend_on_pieces(
    table: TableView,
    max_table_capacity: usize,
    limit: usize,
    s: Seq<u8>,
    more: Seq<u8>,
)
    ensures
        ({
            let (result, next, rest) = run_spec(table, max_table_capacity, limit, s);
            run_spec(table, max_table_capacity, limit, s + more) == match result {
                Ok(_) => run_spec(next, max_table_capacity, limit, rest + more),
                Err(_) => (result, next, rest + more),
            }
        }),
    decreases s.len(),
{
    if s.len() == 0 {
        assert(s + more =~= more);
    } else {
        let (instruction, rest) = instruction_spec(table, limit, s);
        match instruction {
            Ok(None) => {},
            Err(_) => {
                lemma_instruction_extends(table, limit, s, more);
            },
            Ok(Some(instruction)) => {
                lemma_instruction_extends(table, limit, s, more);
                super::decoder::lemma_instruction_consumes(table, limit, s);
                let (result, next) = apply_spec(table, max_table_capacity, instruction);
                if result is Ok {
                    encoder_stream_does_not_depend_on_pieces(
                        next,
                        max_table_capacity,
                        limit,
                        rest,
                        more,
                    );
                }
            },
        }
    }
}

/// An instruction of the decoder stream that has arrived whole, or that is in error, is what
/// it is whatever follows.
proof fn lemma_action_extends(s: Seq<u8>, more: Seq<u8>)
    requires
        s.len() > 0,
        !(parse_action(s).0 matches Ok(None)),
    ensures
        parse_action(s + more) == (parse_action(s).0, parse_action(s).1 + more),
{
    assert((s + more)[0] == s[0]);
    let end = prefix_int::Error::UnexpectedEnd;
    if prefix_int::decode_spec(6, s).0 != Err::<(u8, u64), prefix_int::Error>(end) {
        lemma_int_extends(6, s, more);
    }
    if prefix_int::decode_spec(7, s).0 != Err::<(u8, u64), prefix_int::Error>(end) {
        lemma_int_extends(7, s, more);
    }
}

/// Following the decoder stream as its bytes arrive, with what was left unread kept for the
/// next time, does what following it in one piece does: the table is the same, and so is
/// the error where there is one.
pub proof fn decoder_stream_does_not_depend_on_pieces(table: TableView, s: Seq<u8>, more: Seq<u8>)
    ensures
        ({
            let (result, next, rest) = follow_spec(table, s);
            follow_spec(table, s + more) == match result {
                Ok(_) => follow_spec(next, rest + more),
                Err(_) => (result, next, rest + more),
            }
        }),
    decreases s.len(),
{
    if s.len() == 0 {
        assert(s + more =~= more);
    } else {
        let (action, rest) = parse_action(s);
        match action {
            Ok(None) => {},
            Err(_) => {
                lemma_action_extends(s, more);
            },
            Ok(Some(action)) => {
                lemma_action_extends(s, more);
                super::encoder::lemma_action_consumes(s);
                let (result, next) = action_spec(table, action);
                if result is Ok {
                    decoder_stream_does_not_depend_on_pieces(next, rest, more);
                }
            },
        }
    }
}

} // verus!
