//! The classic text dialect: one command per line, tokens separated by
//! white space.

use crate::chars::{
    chars_of, parse_decimal, parse_number, split_tokens, string_of, tokens, views,
};
use crate::protocol::{
    malformed, parsed_view, string_views, Command, CommandView, ParseError, ParseErrorView,
};
use vstd::prelude::*;
use vstd::string::*;

verus! {

/// The tokens of `parts`, each followed by one space but the last.
pub open spec fn join_spaced(parts: Seq<Seq<char>>) -> Seq<char>
    decreases parts.len(),
{
    if parts.len() == 0 {
        Seq::empty()
    } else if parts.len() == 1 {
        parts[0]
    } else {
        join_spaced(parts.drop_last()) + seq![' '] + parts.last()
    }
}

/// A retrieval command that takes keys only.
pub open spec fn keyed(
    parts: Seq<Seq<char>>,
    with_cas: bool,
    reason: Seq<char>,
) -> Result<CommandView, ParseErrorView> {
    if parts.len() < 2 {
        malformed(reason)
    } else if with_cas {
        Ok(CommandView::Gets(parts.skip(1)))
    } else {
        Ok(CommandView::Get(parts.skip(1)))
    }
}

/// A retrieval command that takes an expiration time and keys.
pub open spec fn keyed_with_exptime(
    parts: Seq<Seq<char>>,
    with_cas: bool,
    too_short: Seq<char>,
    bad_exptime: Seq<char>,
) -> Result<CommandView, ParseErrorView> {
    if parts.len() < 3 {
        malformed(too_short)
    } else {
        match parse_decimal(parts[1], u32::MAX as nat) {
            None => malformed(bad_exptime),
            Some(exptime) => if with_cas {
                Ok(CommandView::Gats(exptime as u32, parts.skip(2)))
            } else {
                Ok(CommandView::Gat(exptime as u32, parts.skip(2)))
            },
        }
    }
}

/// The command that a line of the text dialect denotes, or why it denotes
/// none.
pub open spec fn parse_spec(line: Seq<char>) -> Result<CommandView, ParseErrorView> {
    let parts = tokens(line);
    if parts.len() == 0 {
        malformed("empty command"@)
    } else if parts[0] == "get"@ {
        keyed(parts, false, "get requires at least one key"@)
    } else if parts[0] == "gets"@ {
        keyed(parts, true, "gets requires at least one key"@)
    } else if parts[0] == "gat"@ {
        keyed_with_exptime(
            parts,
            false,
            "gat requires exptime and at least one key"@,
            "invalid exptime in gat command"@,
        )
    } else if parts[0] == "gats"@ {
        keyed_with_exptime(
            parts,
            true,
            "gats requires exptime and at least one key"@,
            "invalid exptime in gats command"@,
        )
    } else if parts[0] == "version"@ {
        Ok(CommandView::Version)
    } else if parts[0] == "stats"@ {
        if parts.len() > 1 {
            Ok(CommandView::Stats(Some(join_spaced(parts.skip(1)))))
        } else {
            Ok(CommandView::Stats(None))
        }
    } else if parts[0] == "touch"@ {
        if parts.len() != 3 {
            malformed("touch requires key and exptime"@)
        } else {
            match parse_decimal(parts[2], u32::MAX as nat) {
                None => malformed("invalid exptime in touch command"@),
                Some(exptime) => Ok(CommandView::Touch(parts[1], exptime as u32)),
            }
        }
    } else if parts[0] == "quit"@ {
        Ok(CommandView::Quit)
    } else {
        malformed("unknown command: "@ + parts[0])
    }
}

/// Whether the characters of `word` are those of `text`.
pub fn is_word(word: &Vec<char>, text: &str) -> (r: bool)
    ensures
        r == (word@ == text@),
{
    let other = chars_of(text);
    if word.len() != other.len() {
        return false;
    }
    let mut i: usize = 0;
    while i < word.len()
        invariant
            i <= word.len(),
            word.len() == other.len(),
            other@ == text@,
            word@.take(i as int) == text@.take(i as int),
        decreases word.len() - i,
    {
        if word[i] != other[i] {
            return false;
        }
        assert(word@.take(i + 1) == word@.take(i as int).push(word@[i as int]));
        assert(text@.take(i + 1) == text@.take(i as int).push(text@[i as int]));
        i += 1;
    }
    assert(word@.take(word.len() as int) == word@);
    assert(text@.take(word.len() as int) == text@);
    true
}

/// The strings made of `parts[from..]`.
pub fn strings_from(parts: &Vec<Vec<char>>, from: usize) -> (out: Vec<String>)
    requires
        from <= parts.len(),
    ensures
        string_views(out@) == views(parts@).skip(from as int),
{
    let mut out: Vec<String> = Vec::new();
    let mut i: usize = from;
    while i < parts.len()
        invariant
            from <= i <= parts.len(),
            string_views(out@) == views(parts@).subrange(from as int, i as int),
        decreases parts.len() - i,
    {
        let s = string_of(parts[i].as_slice());
        proof {
            assert(string_views(out@.push(s)) == string_views(out@).push(s@));
            assert(views(parts@).subrange(from as int, i + 1) == views(parts@).subrange(
                from as int,
                i as int,
            ).push(parts@[i as int]@));
        }
        out.push(s);
        i += 1;
    }
    assert(views(parts@).subrange(from as int, parts.len() as int) == views(parts@).skip(
        from as int,
    ));
    out
}

/// `parts[from..]`, joined by single spaces.
pub fn joined_from(parts: &Vec<Vec<char>>, from: usize) -> (out: String)
    requires
        from < parts.len(),
    ensures
        out@ == join_spaced(views(parts@).skip(from as int)),
{
    let ghost all = views(parts@).skip(from as int);
    let mut buf: Vec<char> = Vec::new();
    let mut i: usize = from;
    while i < parts.len()
        invariant
            from <= i <= parts.len(),
            all == views(parts@).skip(from as int),
            buf@ == join_spaced(all.take(i - from)),
        decreases parts.len() - i,
    {
        proof {
            assert(all.take(i - from + 1).drop_last() == all.take(i - from));
            assert(all.take(i - from + 1).last() == parts@[i as int]@);
        }
        if i > from {
            buf.push(' ');
        }
        let part = &parts[i];
        let mut j: usize = 0;
        let ghost before = buf@;
        while j < part.len()
            invariant
                j <= part.len(),
                buf@ == before + part@.take(j as int),
            decreases part.len() - j,
        {
            buf.push(part[j]);
            assert(part@.take(j + 1) == part@.take(j as int).push(part@[j as int]));
            j += 1;
        }
        assert(part@.take(part.len() as int) == part@);
        assert(buf@ == join_spaced(all.take(i - from + 1))) by {
            if i > from {
                assert(before == join_spaced(all.take(i - from)) + seq![' ']);
            } else {
                assert(all.take(0).len() == 0);
                assert(before + part@ == part@);
            }
        }
        i += 1;
    }
    assert(all.take(parts.len() - from) == all);
    string_of(buf.as_slice())
}

/// An error that says `reason`.
pub fn other(reason: &str) -> (e: ParseError)
    ensures
        e@ == ParseErrorView::Other(reason@),
{
    ParseError::Other(String::from_str(reason))
}

/// An error that says `reason`, followed by `word`.
pub fn other_about(reason: &str, word: &Vec<char>) -> (e: ParseError)
    ensures
        e@ == ParseErrorView::Other(reason@ + word@),
{
    let mut text = String::from_str(reason);
    let mut i: usize = 0;
    while i < word.len()
        invariant
            i <= word.len(),
            text@ == reason@ + word@.take(i as int),
        decreases word.len() - i,
    {
        text.push(word[i]);
        assert(word@.take(i + 1) == word@.take(i as int).push(word@[i as int]));
        i += 1;
    }
    assert(word@.take(word.len() as int) == word@);
    ParseError::Other(text)
}

/// A number of at most 32 bits, as the text dialect writes it.
pub fn parse_u32(word: &Vec<char>) -> (r: Option<u32>)
    ensures
        r matches Some(n) ==> parse_decimal(word@, u32::MAX as nat) == Some(n as nat),
        r is None ==> parse_decimal(word@, u32::MAX as nat) is None,
{
    match parse_number(word.as_slice(), u32::MAX as u64) {
        Some(n) => Some(n as u32),
        None => None,
    }
}

/// Parses one line of the text dialect.
pub fn parse(line: &String) -> (r: Result<Command, ParseError>)
    ensures
        parsed_view(r) == parse_spec(line@),
{
    let chars = chars_of(line.as_str());
    parse_chars(&chars)
}

/// Parses one line of the text dialect, given as characters.
pub fn parse_chars(chars: &Vec<char>) -> (r: Result<Command, ParseError>)
    ensures
        parsed_view(r) == parse_spec(chars@),
{
    let parts = split_tokens(chars);
    assert(views(parts@).len() == parts@.len());
    if parts.len() == 0 {
        return Err(other("empty command"));
    }
    assert(views(parts@)[0] == parts@[0]@);
    let name = &parts[0];
    if is_word(name, "get") {
        if parts.len() < 2 {
            return Err(other("get requires at least one key"));
        }
        Ok(Command::Get(strings_from(&parts, 1)))
    } else if is_word(name, "gets") {
        if parts.len() < 2 {
            return Err(other("gets requires at least one key"));
        }
        Ok(Command::Gets(strings_from(&parts, 1)))
    } else if is_word(name, "gat") {
        if parts.len() < 3 {
            return Err(other("gat requires exptime and at least one key"));
        }
        assert(views(parts@)[1] == parts@[1]@);
        match parse_u32(&parts[1]) {
            None => Err(other("invalid exptime in gat command")),
            Some(exptime) => Ok(Command::Gat(exptime, strings_from(&parts, 2))),
        }
    } else if is_word(name, "gats") {
        if parts.len() < 3 {
            return Err(other("gats requires exptime and at least one key"));
        }
        assert(views(parts@)[1] == parts@[1]@);
        match parse_u32(&parts[1]) {
            None => Err(other("invalid exptime in gats command")),
            Some(exptime) => Ok(Command::Gats(exptime, strings_from(&parts, 2))),
        }
    } else if is_word(name, "version") {
        Ok(Command::Version)
    } else if is_word(name, "stats") {
        if parts.len() > 1 {
            Ok(Command::Stats(Some(joined_from(&parts, 1))))
        } else {
            Ok(Command::Stats(None))
        }
    } else if is_word(name, "touch") {
        if parts.len() != 3 {
            return Err(other("touch requires key and exptime"));
        }
        assert(views(parts@)[1] == parts@[1]@);
        assert(views(parts@)[2] == parts@[2]@);
        match parse_u32(&parts[2]) {
            None => Err(other("invalid exptime in touch command")),
            Some(exptime) => Ok(Command::Touch(string_of(parts[1].as_slice()), exptime)),
        }
    } else if is_word(name, "quit") {
        Ok(Command::Quit)
    } else {
        Err(other_about("unknown command: ", name))
    }
}

} // verus!
