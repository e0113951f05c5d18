//! The meta dialect: `mg <key> <flags>` and `mn`.

use crate::chars::{chars_of, parse_decimal, parse_number, split_tokens, string_of, tokens, views};
use crate::protocol::text::{is_word, other, other_about};
use crate::protocol::{
    flag_views, malformed, parsed_view, Command, CommandView, MetaFlag, MetaFlagView, ParseError,
    ParseErrorView,
};
use vstd::prelude::*;

verus! {

/// The flag that a single letter stands for.
pub open spec fn letter_flag(c: char) -> Option<MetaFlagView> {
    if c == 'b' {
        Some(MetaFlagView::BaseEncoded)
    } else if c == 'c' {
        Some(MetaFlagView::ReturnCas)
    } else if c == 'f' {
        Some(MetaFlagView::ReturnFlags)
    } else if c == 'h' {
        Some(MetaFlagView::ReturnHit)
    } else if c == 'k' {
        Some(MetaFlagView::ReturnKey)
    } else if c == 'l' {
        Some(MetaFlagView::ReturnLastAccess)
    } else if c == 'q' {
        Some(MetaFlagView::NoReply)
    } else if c == 's' {
        Some(MetaFlagView::ReturnSize)
    } else if c == 't' {
        Some(MetaFlagView::ReturnTtl)
    } else if c == 'u' {
        Some(MetaFlagView::NoLruBump)
    } else if c == 'v' {
        Some(MetaFlagView::ReturnValue)
    } else {
        None
    }
}

/// Flags read so far, followed by what the rest gives.
pub open spec fn followed_by(
    head: Seq<MetaFlagView>,
    rest: Result<Seq<MetaFlagView>, Seq<char>>,
) -> Result<Seq<MetaFlagView>, Seq<char>> {
    match rest {
        Ok(flags) => Ok(head + flags),
        Err(reason) => Err(reason),
    }
}

/// The flags that a run of single letters stands for, from the `i`-th letter
/// on; the first letter that is no flag is the error.
pub open spec fn letter_flags(part: Seq<char>, i: int) -> Result<Seq<MetaFlagView>, Seq<char>>
    decreases part.len() - i,
{
    if 0 <= i < part.len() {
        match letter_flag(part[i]) {
            Some(flag) => followed_by(seq![flag], letter_flags(part, i + 1)),
            None => Err("unknown meta flag: "@.push(part[i])),
        }
    } else {
        Ok(Seq::empty())
    }
}

/// A flag whose token is a number of at most `max`.
pub open spec fn numeric_token(part: Seq<char>, max: nat) -> Option<nat> {
    parse_decimal(part.skip(1), max)
}

/// The flags that one token stands for. A token that begins with `O`, `N`,
/// `R`, `T` or `E` is one flag with the rest of the token as its value; any
/// other token is a run of single letters.
pub open spec fn part_flags(part: Seq<char>) -> Result<Seq<MetaFlagView>, Seq<char>> {
    if part.len() == 0 {
        Ok(Seq::empty())
    } else if part[0] == 'O' {
        if part.len() == 1 {
            Err("O flag requires token"@)
        } else {
            Ok(seq![MetaFlagView::Opaque(part.skip(1))])
        }
    } else if part[0] == 'N' {
        match numeric_token(part, u32::MAX as nat) {
            Some(ttl) => Ok(seq![MetaFlagView::VivifyOnMiss(ttl as u32)]),
            None => Err("N flag requires numeric TTL"@),
        }
    } else if part[0] == 'R' {
        match numeric_token(part, u32::MAX as nat) {
            Some(ttl) => Ok(seq![MetaFlagView::RecacheWin(ttl as u32)]),
            None => Err("R flag requires numeric TTL"@),
        }
    } else if part[0] == 'T' {
        match numeric_token(part, u32::MAX as nat) {
            Some(ttl) => Ok(seq![MetaFlagView::UpdateTtl(ttl as u32)]),
            None => Err("T flag requires numeric TTL"@),
        }
    } else if part[0] == 'E' {
        match numeric_token(part, u64::MAX as nat) {
            Some(cas) => Ok(seq![MetaFlagView::SetCas(cas as u64)]),
            None => Err("E flag requires numeric CAS"@),
        }
    } else {
        letter_flags(part, 0)
    }
}

/// The flags that the tokens `parts[i..]` stand for, in order; the first
/// token that is malformed is the error.
pub open spec fn flags_from(parts: Seq<Seq<char>>, i: int) -> Result<Seq<MetaFlagView>, Seq<char>>
    decreases parts.len() - i,
{
    if 0 <= i < parts.len() {
        match part_flags(parts[i]) {
            Ok(flags) => followed_by(flags, flags_from(parts, i + 1)),
            Err(reason) => Err(reason),
        }
    } else {
        Ok(Seq::empty())
    }
}

/// The command that a line of the meta dialect denotes, or why it denotes
/// none.
pub open spec fn parse_spec(line: Seq<char>) -> Result<CommandView, ParseErrorView> {
    let parts = tokens(line);
    if parts.len() == 0 {
        malformed("empty command"@)
    } else if parts[0] == "mg"@ {
        if parts.len() < 2 {
            malformed("mg requires key"@)
        } else {
            match flags_from(parts, 2) {
                Ok(flags) => Ok(CommandView::MetaGet(parts[1], flags)),
                Err(reason) => malformed(reason),
            }
        }
    } else if parts[0] == "mn"@ {
        if parts.len() != 1 {
            malformed("mn takes no arguments"@)
        } else {
            Ok(CommandView::MetaNoOp)
        }
    } else {
        malformed("unknown meta command: "@ + parts[0])
    }
}

/// What `parse_meta_flags` returns, by its contents.
pub open spec fn flags_view(r: Result<Vec<MetaFlag>, ParseError>) -> Result<
    Seq<MetaFlagView>,
    ParseErrorView,
> {
    match r {
        Ok(flags) => Ok(flag_views(flags@)),
        Err(e) => Err(e@),
    }
}

/// Flags, or the reason there are none as a parse error.
pub open spec fn flags_or_malformed(r: Result<Seq<MetaFlagView>, Seq<char>>) -> Result<
    Seq<MetaFlagView>,
    ParseErrorView,
> {
    match r {
        Ok(flags) => Ok(flags),
        Err(reason) => Err(ParseErrorView::Other(reason)),
    }
}

fn single_letter(c: char) -> (r: Option<MetaFlag>)
    ensures
        match r {
            Some(flag) => letter_flag(c) == Some(flag@),
            None => letter_flag(c) is None,
        },
{
    if c == 'b' {
        Some(MetaFlag::BaseEncoded)
    } else if c == 'c' {
        Some(MetaFlag::ReturnCas)
    } else if c == 'f' {
        Some(MetaFlag::ReturnFlags)
    } else if c == 'h' {
        Some(MetaFlag::ReturnHit)
    } else if c == 'k' {
        Some(MetaFlag::ReturnKey)
    } else if c == 'l' {
        Some(MetaFlag::ReturnLastAccess)
    } else if c == 'q' {
        Some(MetaFlag::NoReply)
    } else if c == 's' {
        Some(MetaFlag::ReturnSize)
    } else if c == 't' {
        Some(MetaFlag::ReturnTtl)
    } else if c == 'u' {
        Some(MetaFlag::NoLruBump)
    } else if c == 'v' {
        Some(MetaFlag::ReturnValue)
    } else {
        None
    }
}

/// The number after the first character of `part`, if it is one of at most
/// `max`.
fn token_number(part: &Vec<char>, max: u64) -> (r: Option<u64>)
    requires
        part.len() > 0,
    ensures
        r matches Some(n) ==> numeric_token(part@, max as nat) == Some(n as nat),
        r is None ==> numeric_token(part@, max as nat) is None,
{
    let rest = vstd::slice::slice_subrange(part.as_slice(), 1, part.len());
    assert(rest@ == part@.skip(1));
    parse_number(rest, max)
}

/// Appends to `flags` what the token `part` stands for.
fn push_part_flags(flags: &mut Vec<MetaFlag>, part: &Vec<char>) -> (r: Result<(), ParseError>)
    ensures
        match r {
            Ok(()) => part_flags(part@) is Ok && flag_views(final(flags)@) == flag_views(
                old(flags)@,
            ) + part_flags(part@)->Ok_0,
            Err(e) => part_flags(part@) is Err && e@ == ParseErrorView::Other(
                part_flags(part@)->Err_0,
            ),
        },
{
    let ghost before = flag_views(flags@);
    if part.len() == 0 {
        assert(before + Seq::<MetaFlagView>::empty() == before);
        return Ok(());
    }
    let first = part[0];
    if first == 'O' {
        if part.len() == 1 {
            return Err(other("O flag requires token"));
        }
        let rest = vstd::slice::slice_subrange(part.as_slice(), 1, part.len());
        assert(rest@ == part@.skip(1));
        let flag = MetaFlag::Opaque(string_of(rest));
        assert(flag_views(flags@.push(flag)) == before + seq![flag@]);
        flags.push(flag);
        Ok(())
    } else if first == 'N' {
        match token_number(part, u32::MAX as u64) {
            Some(ttl) => {
                let flag = MetaFlag::VivifyOnMiss(ttl as u32);
                assert(flag_views(flags@.push(flag)) == before + seq![flag@]);
                flags.push(flag);
                Ok(())
            },
            None => Err(other("N flag requires numeric TTL")),
        }
    } else if first == 'R' {
        match token_number(part, u32::MAX as u64) {
            Some(ttl) => {
                let flag = MetaFlag::RecacheWin(ttl as u32);
                assert(flag_views(flags@.push(flag)) == before + seq![flag@]);
                flags.push(flag);
                Ok(())
            },
            None => Err(other("R flag requires numeric TTL")),
        }
    } else if first == 'T' {
        match token_number(part, u32::MAX as u64) {
            Some(ttl) => {
                let flag = MetaFlag::UpdateTtl(ttl as u32);
                assert(flag_views(flags@.push(flag)) == before + seq![flag@]);
                flags.push(flag);
                Ok(())
            },
            None => Err(other("T flag requires numeric TTL")),
        }
    } else if first == 'E' {
        match token_number(part, u64::MAX) {
            Some(cas) => {
                let flag = MetaFlag::SetCas(cas);
                assert(flag_views(flags@.push(flag)) == before + seq![flag@]);
                flags.push(flag);
                Ok(())
            },
            None => Err(other("E flag requires numeric CAS")),
        }
    } else {
        let mut i: usize = 0;
        while i < part.len()
            invariant
                i <= part.len(),
                part_flags(part@) == letter_flags(part@, 0),
                letter_flags(part@, 0) == followed_by(
                    flag_views(flags@).skip(before.len() as int),
                    letter_flags(part@, i as int),
                ),
                flag_views(flags@).take(before.len() as int) == before,
                flag_views(flags@).len() >= before.len(),
            decreases part.len() - i,
        {
            match single_letter(part[i]) {
                Some(flag) => {
                    proof {
                        let so_far = flag_views(flags@);
                        let next = flag_views(flags@.push(flag));
                        assert(next == so_far.push(flag@));
                        assert(next.skip(before.len() as int) == so_far.skip(before.len() as int)
                            + seq![flag@]);
                        assert(next.take(before.len() as int) == before);
                        match letter_flags(part@, i + 1) {
                            Ok(rest) => {
                                assert(so_far.skip(before.len() as int) + (seq![flag@] + rest)
                                    == next.skip(before.len() as int) + rest);
                            },
                            Err(_) => {},
                        }
                    }
                    flags.push(flag);
                },
                None => {
                    let mut text = String::from_str("unknown meta flag: ");
                    text.push(part[i]);
                    proof {
                        let reason = "unknown meta flag: "@.push(part@[i as int]);
                        assert(letter_flags(part@, i as int) == Err::<Seq<MetaFlagView>, Seq<char>>(
                            reason,
                        ));
                        assert(letter_flags(part@, 0) == Err::<Seq<MetaFlagView>, Seq<char>>(
                            reason,
                        ));
                        assert(text@ == reason);
                    }
                    return Err(ParseError::Other(text));
                },
            }
            i += 1;
        }
        proof {
            let all = flag_views(flags@);
            assert(all.skip(before.len() as int) + Seq::<MetaFlagView>::empty() == all.skip(
                before.len() as int,
            ));
            assert(all == all.take(before.len() as int) + all.skip(before.len() as int));
        }
        Ok(())
    }
}

/// Reads the flags of a meta command from its tokens after the key.
pub fn parse_meta_flags(flag_parts: &[Vec<char>]) -> (r: Result<Vec<MetaFlag>, ParseError>)
    ensures
        flags_view(r) == flags_or_malformed(flags_from(views(flag_parts@), 0)),
{
    let ghost parts = views(flag_parts@);
    let mut flags: Vec<MetaFlag> = Vec::new();
    let mut i: usize = 0;
    assert(flag_views(flags@) == Seq::<MetaFlagView>::empty());
    while i < flag_parts.len()
        invariant
            i <= flag_parts.len(),
            parts == views(flag_parts@),
            flags_from(parts, 0) == followed_by(flag_views(flags@), flags_from(parts, i as int)),
        decreases flag_parts.len() - i,
    {
        let ghost before = flag_views(flags@);
        assert(parts[i as int] == flag_parts[i as int]@);
        match push_part_flags(&mut flags, &flag_parts[i]) {
            Ok(()) => {
                proof {
                    let these = part_flags(parts[i as int])->Ok_0;
                    match flags_from(parts, i + 1) {
                        Ok(rest) => {
                            assert(before + (these + rest) == (before + these) + rest);
                        },
                        Err(_) => {},
                    }
                }
            },
            Err(e) => {
                return Err(e);
            },
        }
        i += 1;
    }
    assert(flag_views(flags@) + Seq::<MetaFlagView>::empty() == flag_views(flags@));
    Ok(flags)
}

/// Parses one line of the meta dialect.
pub fn parse(line: &String) -> (r: Result<Command, ParseError>)
    ensures
        parsed_view(r) == parse_spec(line@),
{
    let chars = chars_of(line.as_str());
    parse_chars(&chars)
}

/// Parses one line of the meta dialect, given as characters.
pub fn parse_chars(chars: &Vec<char>) -> (r: Result<Command, ParseError>)
    ensures
        parsed_view(r) == parse_spec(chars@),
{
    let parts = split_tokens(chars);
    assert(views(parts@).len() == parts@.len());
    if parts.len() == 0 {
        return Err(other("empty command"));
    }
    assert(views(parts@)[0] == parts@[0]@);
    let name = &parts[0];
    if is_word(name, "mg") {
        if parts.len() < 2 {
            return Err(other("mg requires key"));
        }
        assert(views(parts@)[1] == parts@[1]@);
        let key = string_of(parts[1].as_slice());
        let rest = vstd::slice::slice_subrange(parts.as_slice(), 2, parts.len());
        proof {
            assert(views(rest@) == views(parts@).skip(2));
            lemma_flags_from_skip(views(parts@), 2, 0);
        }
        match parse_meta_flags(rest) {
            Ok(flags) => Ok(Command::MetaGet(key, flags)),
            Err(e) => {
                Err(e)
            },
        }
    } else if is_word(name, "mn") {
        if parts.len() != 1 {
            return Err(other("mn takes no arguments"));
        }
        Ok(Command::MetaNoOp)
    } else {
        Err(other_about("unknown meta command: ", name))
    }
}

/// Reading the flags of `parts[k..]` from its `i`-th token on is reading
/// those of `parts` from token `k + i` on.
pub proof fn lemma_flags_from_skip(parts: Seq<Seq<char>>, k: int, i: int)
    requires
        0 <= k <= parts.len(),
        0 <= i,
    ensures
        flags_from(parts.skip(k), i) == flags_from(parts, k + i),
    decreases parts.len() - k - i,
{
    if i < parts.len() - k {
        assert(parts.skip(k)[i] == parts[k + i]);
        lemma_flags_from_skip(parts, k, i + 1);
    }
}

} // verus!
