//! Requests as a client writes them, in each of the three dialects, and the
//! proof that the parsers read back what was written.

use crate::chars::{
    decimal, is_space, is_word, lemma_decimal_round_trip, lemma_tokens_are_words,
    lemma_tokens_of_word, lemma_tokens_split, parse_decimal, push_decimal, space_len, string_of,
    tokens, trailing_spaces, trimmed, unsigned_digits,
};
use crate::protocol::binary::{
    header_bytes, lemma_header_bytes_len, lemma_header_round_trip, parse_binary_spec,
    BinaryHeader, MAGIC_REQUEST, OPCODE_DELETE, OPCODE_GET, OPCODE_QUIT, OPCODE_STAT,
    OPCODE_VERSION,
};
use crate::protocol::meta::{flags_from, letter_flags, part_flags};
use crate::protocol::text::join_spaced;
use crate::protocol::{
    flag_text, flag_views, parse_text_spec, push_text, string_views, Command,
    CommandContextView, CommandView, MetaFlagView, ProtocolType,
};
use vstd::prelude::*;
use vstd::string::*;
use vstd::utf8::{encode_utf8, encode_utf8_decode_utf8, encode_utf8_valid_utf8};

verus! {

//- Lines -----------------------------------------------------------------------
/// The way each of `flags` is written.
pub open spec fn flag_texts(flags: Seq<MetaFlagView>) -> Seq<Seq<char>> {
    flags.map_values(|f: MetaFlagView| flag_text(f))
}

/// The words of the line that asks for `command`: the name of the command,
/// then its arguments in the order the dialect wants them.
pub open spec fn words_of(command: CommandView) -> Seq<Seq<char>> {
    match command {
        CommandView::Get(keys) => seq!["get"@] + keys,
        CommandView::Gets(keys) => seq!["gets"@] + keys,
        CommandView::Gat(exptime, keys) => seq!["gat"@, decimal(exptime as nat)] + keys,
        CommandView::Gats(exptime, keys) => seq!["gats"@, decimal(exptime as nat)] + keys,
        CommandView::MetaGet(key, flags) => seq!["mg"@, key] + flag_texts(flags),
        CommandView::MetaNoOp => seq!["mn"@],
        CommandView::Version => seq!["version"@],
        CommandView::Stats(None) => seq!["stats"@],
        CommandView::Stats(Some(about)) => seq!["stats"@, about],
        CommandView::Touch(key, exptime) => seq!["touch"@, key, decimal(exptime as nat)],
        CommandView::Quit => seq!["quit"@],
    }
}

/// The line that asks for `command`: its words with single spaces between
/// them, and the end of the line.
pub open spec fn line_of(command: CommandView) -> Seq<char> {
    join_spaced(words_of(command)) + "\r\n"@
}

/// The dialect that the line of `command` is written in.
pub open spec fn line_dialect(command: CommandView) -> ProtocolType {
    match command {
        CommandView::MetaGet(_, _) => ProtocolType::Meta,
        CommandView::MetaNoOp => ProtocolType::Meta,
        _ => ProtocolType::Text,
    }
}

/// Whether every one of `list` is a word: not empty, and without white
/// space.
pub open spec fn all_words(list: Seq<Seq<char>>) -> bool {
    forall|i: int| 0 <= i < list.len() ==> is_word(#[trigger] list[i])
}

/// Whether a line can say `command` and nothing else: there is at least
/// one key where keys are asked for, keys and the tokens of flags are
/// words, and what statistics are asked about is words with single spaces
/// between them.
pub open spec fn fits_a_line(command: CommandView) -> bool {
    match command {
        CommandView::Get(keys) => keys.len() > 0 && all_words(keys),
        CommandView::Gets(keys) => keys.len() > 0 && all_words(keys),
        CommandView::Gat(_, keys) => keys.len() > 0 && all_words(keys),
        CommandView::Gats(_, keys) => keys.len() > 0 && all_words(keys),
        CommandView::MetaGet(key, flags) => is_word(key) && forall|i: int|
            0 <= i < flags.len() ==> (#[trigger] flags[i] matches MetaFlagView::Opaque(token)
                ==> is_word(token)),
        CommandView::Stats(Some(about)) => tokens(about).len() > 0 && join_spaced(tokens(about))
            == about,
        CommandView::Touch(key, _) => is_word(key),
        _ => true,
    }
}

/// Joins `done` and one more word.
fn push_word(buf: &mut Vec<char>, word: &str, Ghost(done): Ghost<Seq<Seq<char>>>)
    requires
        done.len() > 0,
        old(buf)@ == join_spaced(done),
    ensures
        final(buf)@ == join_spaced(done.push(word@)),
{
    buf.push(' ');
    push_text(buf, word);
    proof {
        assert(done.push(word@).drop_last() == done);
        assert(buf@ =~= join_spaced(done) + seq![' '] + word@);
    }
}

/// Joins `done` and one more word, a number.
fn push_number(buf: &mut Vec<char>, n: u32, Ghost(done): Ghost<Seq<Seq<char>>>)
    requires
        done.len() > 0,
        old(buf)@ == join_spaced(done),
    ensures
        final(buf)@ == join_spaced(done.push(decimal(n as nat))),
{
    buf.push(' ');
    push_decimal(buf, n as u64);
    proof {
        assert(done.push(decimal(n as nat)).drop_last() == done);
        assert(buf@ =~= join_spaced(done) + seq![' '] + decimal(n as nat));
    }
}

/// Joins `done` and the keys.
fn push_keys(buf: &mut Vec<char>, keys: &Vec<String>, Ghost(done): Ghost<Seq<Seq<char>>>)
    requires
        done.len() > 0,
        old(buf)@ == join_spaced(done),
    ensures
        final(buf)@ == join_spaced(done + string_views(keys@)),
{
    let mut i: usize = 0;
    proof {
        assert(done + string_views(keys@).take(0) == done);
    }
    while i < keys.len()
        invariant
            i <= keys.len(),
            done.len() > 0,
            buf@ == join_spaced(done + string_views(keys@).take(i as int)),
        decreases keys.len() - i,
    {
        let ghost so_far = done + string_views(keys@).take(i as int);
        push_word(buf, keys[i].as_str(), Ghost(so_far));
        proof {
            assert(so_far.push(keys@[i as int]@) == done + string_views(keys@).take(i + 1));
        }
        i += 1;
    }
    proof {
        assert(string_views(keys@).take(i as int) == string_views(keys@));
    }
}

/// Starts a line with the name of a command.
fn first_word(name: &str) -> (buf: Vec<char>)
    ensures
        buf@ == join_spaced(seq![name@]),
{
    let mut buf: Vec<char> = Vec::new();
    push_text(&mut buf, name);
    assert(buf@ =~= name@);
    buf
}

impl Command {
    /// The line that asks for this command, as a client writes it.
    pub fn request_line(&self) -> (line: String)
        ensures
            line@ == line_of(self@),
    {
        let mut buf: Vec<char>;
        match self {
            Command::Get(keys) => {
                buf = first_word("get");
                let ghost head = seq!["get"@];
                push_keys(&mut buf, keys, Ghost(head));
            },
            Command::Gets(keys) => {
                buf = first_word("gets");
                let ghost head = seq!["gets"@];
                push_keys(&mut buf, keys, Ghost(head));
            },
            Command::Gat(exptime, keys) => {
                buf = first_word("gat");
                let ghost head = seq!["gat"@];
                push_number(&mut buf, *exptime, Ghost(head));
                proof {
                    assert(seq!["gat"@].push(decimal(*exptime as nat)) == seq![
                        "gat"@,
                        decimal(*exptime as nat),
                    ]);
                }
                let ghost head = seq!["gat"@, decimal(*exptime as nat)];
                push_keys(&mut buf, keys, Ghost(head));
            },
            Command::Gats(exptime, keys) => {
                buf = first_word("gats");
                let ghost head = seq!["gats"@];
                push_number(&mut buf, *exptime, Ghost(head));
                proof {
                    assert(seq!["gats"@].push(decimal(*exptime as nat)) == seq![
                        "gats"@,
                        decimal(*exptime as nat),
                    ]);
                }
                let ghost head = seq!["gats"@, decimal(*exptime as nat)];
                push_keys(&mut buf, keys, Ghost(head));
            },
            Command::MetaGet(key, flags) => {
                buf = first_word("mg");
                let ghost head = seq!["mg"@];
                push_word(&mut buf, key.as_str(), Ghost(head));
                let ghost head = seq!["mg"@, key@];
                let ghost texts = flag_texts(flag_views(flags@));
                proof {
                    assert(seq!["mg"@].push(key@) == head);
                    assert(head + texts.take(0) == head);
                }
                let mut i: usize = 0;
                while i < flags.len()
                    invariant
                        i <= flags.len(),
                        head.len() > 0,
                        texts == flag_texts(flag_views(flags@)),
                        buf@ == join_spaced(head + texts.take(i as int)),
                    decreases flags.len() - i,
                {
                    let ghost so_far = head + texts.take(i as int);
                    let text = flags[i].format_response();
                    push_word(&mut buf, text.as_str(), Ghost(so_far));
                    proof {
                        assert(so_far.push(text@) == head + texts.take(i + 1));
                    }
                    i += 1;
                }
                proof {
                    assert(texts.take(i as int) == texts);
                }
            },
            Command::MetaNoOp => {
                buf = first_word("mn");
            },
            Command::Version => {
                buf = first_word("version");
            },
            Command::Stats(None) => {
                buf = first_word("stats");
            },
            Command::Stats(Some(about)) => {
                buf = first_word("stats");
                let ghost head = seq!["stats"@];
                push_word(&mut buf, about.as_str(), Ghost(head));
                proof {
                    assert(seq!["stats"@].push(about@) == seq!["stats"@, about@]);
                }
            },
            Command::Touch(key, exptime) => {
                buf = first_word("touch");
                let ghost head = seq!["touch"@];
                push_word(&mut buf, key.as_str(), Ghost(head));
                proof {
                    assert(seq!["touch"@].push(key@) == seq!["touch"@, key@]);
                }
                let ghost head = seq!["touch"@, key@];
                push_number(&mut buf, *exptime, Ghost(head));
                proof {
                    assert(seq!["touch"@, key@].push(decimal(*exptime as nat)) == seq![
                        "touch"@,
                        key@,
                        decimal(*exptime as nat),
                    ]);
                }
            },
            Command::Quit => {
                buf = first_word("quit");
            },
        }
        push_text(&mut buf, "\r\n");
        string_of(buf.as_slice())
    }
}

/// Words joined by single spaces are read back as the same words; what
/// they are joined to begins with the first word and has no white space
/// at either end.
pub proof fn lemma_joined_words(words: Seq<Seq<char>>)
    requires
        words.len() > 0,
        all_words(words),
    ensures
        tokens(join_spaced(words)) == words,
        join_spaced(words).len() >= words[0].len(),
        join_spaced(words).take(words[0].len() as int) == words[0],
        words.len() >= 2 ==> join_spaced(words).len() > words[0].len() && join_spaced(
            words,
        )[words[0].len() as int] == ' ',
        !is_space(join_spaced(words)[0]),
        !is_space(join_spaced(words).last()),
    decreases words.len(),
{
    let joined = join_spaced(words);
    let first = words[0];
    assert(is_word(first));
    if words.len() == 1 {
        lemma_tokens_of_word(first);
        assert(joined.take(first.len() as int) == first);
        assert(tokens(joined) == words);
    } else {
        let front = words.drop_last();
        let last = words.last();
        assert(is_word(last));
        assert(all_words(front)) by {
            assert forall|i: int| 0 <= i < front.len() implies is_word(#[trigger] front[i]) by {
                assert(front[i] == words[i]);
            }
        }
        assert(front[0] == first);
        lemma_joined_words(front);
        lemma_tokens_split(join_spaced(front), last);
        lemma_tokens_of_word(last);
        assert(front + seq![last] == words);
        assert(joined.take(first.len() as int) == join_spaced(front).take(first.len() as int));
        assert(joined[0] == join_spaced(front)[0]);
        assert(joined.last() == last.last());
        if words.len() == 2 {
            assert(join_spaced(front) == first);
        } else {
            assert(joined[first.len() as int] == join_spaced(front)[first.len() as int]);
        }
    }
}

/// A text without white space at its ends is what is left of its line
/// once the line is trimmed.
pub proof fn lemma_line_trimmed(text: Seq<char>)
    requires
        text.len() > 0,
        !is_space(text[0]),
        !is_space(text.last()),
    ensures
        trimmed(text + "\r\n"@) == text,
{
    reveal_strlit("\r\n");
    let line = text + "\r\n"@;
    assert(line[0] == text[0]);
    assert(space_len(line, 0) == 0);
    assert(line.last() == '\n');
    assert(line.drop_last().last() == '\r');
    assert(line.drop_last().drop_last() == text);
    assert(trailing_spaces(text) == 0);
    assert(trailing_spaces(line.drop_last()) == 1);
    assert(trailing_spaces(line) == 2);
    assert(line.subrange(0, line.len() - 2) == text);
}

/// A number that is written is a word, and is read back as that number.
proof fn lemma_number_word(n: nat, max: nat)
    requires
        n <= max,
    ensures
        is_word(decimal(n)),
        parse_decimal(decimal(n), max) == Some(n),
{
    lemma_decimal_round_trip(n);
    assert(unsigned_digits(decimal(n)) == decimal(n));
}

/// A flag that is written is a word, and is read back as that flag alone.
pub proof fn lemma_flag_read_back(flag: MetaFlagView)
    requires
        flag matches MetaFlagView::Opaque(token) ==> is_word(token),
    ensures
        is_word(flag_text(flag)),
        part_flags(flag_text(flag)) == Ok::<Seq<MetaFlagView>, Seq<char>>(seq![flag]),
{
    let text = flag_text(flag);
    match flag {
        MetaFlagView::Opaque(token) => {
            assert(text.skip(1) == token);
            assert forall|j: int| 0 <= j < text.len() implies !is_space(#[trigger] text[j]) by {
                if j > 0 {
                    assert(text[j] == token[j - 1]);
                }
            }
        },
        MetaFlagView::VivifyOnMiss(n) => {
            lemma_numbered_flag('N', n as nat, u32::MAX as nat);
        },
        MetaFlagView::RecacheWin(n) => {
            lemma_numbered_flag('R', n as nat, u32::MAX as nat);
        },
        MetaFlagView::UpdateTtl(n) => {
            lemma_numbered_flag('T', n as nat, u32::MAX as nat);
        },
        MetaFlagView::SetCas(n) => {
            lemma_numbered_flag('E', n as nat, u64::MAX as nat);
        },
        _ => {
            reveal_with_fuel(letter_flags, 3);
            assert(text.len() == 1);
            assert(seq![flag] + Seq::<MetaFlagView>::empty() == seq![flag]);
        },
    }
}

proof fn lemma_numbered_flag(letter: char, n: nat, max: nat)
    requires
        n <= max,
        !is_space(letter),
    ensures
        is_word(seq![letter] + decimal(n)),
        parse_decimal((seq![letter] + decimal(n)).skip(1), max) == Some(n),
{
    lemma_number_word(n, max);
    let text = seq![letter] + decimal(n);
    assert(text.skip(1) == decimal(n));
    assert forall|j: int| 0 <= j < text.len() implies !is_space(#[trigger] text[j]) by {
        if j > 0 {
            assert(text[j] == decimal(n)[j - 1]);
        }
    }
}

/// Flags that are written one to a word are read back as the same flags.
proof fn lemma_flags_read_back(parts: Seq<Seq<char>>, flags: Seq<MetaFlagView>, i: int)
    requires
        0 <= i <= flags.len(),
        parts.len() == 2 + flags.len(),
        forall|k: int| 0 <= k < flags.len() ==> parts[2 + k] == flag_text(#[trigger] flags[k]),
        forall|k: int|
            0 <= k < flags.len() ==> (#[trigger] flags[k] matches MetaFlagView::Opaque(token)
                ==> is_word(token)),
    ensures
        flags_from(parts, 2 + i) == Ok::<Seq<MetaFlagView>, Seq<char>>(flags.skip(i)),
    decreases flags.len() - i,
{
    if i < flags.len() {
        lemma_flag_read_back(flags[i]);
        lemma_flags_read_back(parts, flags, i + 1);
        assert(seq![flags[i]] + flags.skip(i + 1) == flags.skip(i));
    } else {
        assert(flags.skip(i) == Seq::<MetaFlagView>::empty());
    }
}

/// What the line of a command that fits a line is read as, before the
/// command is told from its words.
proof fn lemma_line_words(command: CommandView)
    requires
        fits_a_line(command),
        !(command matches CommandView::Stats(Some(_))),
    ensures
        trimmed(line_of(command)) == join_spaced(words_of(command)),
        tokens(join_spaced(words_of(command))) == words_of(command),
        join_spaced(words_of(command)).len() >= words_of(command)[0].len(),
        join_spaced(words_of(command)).take(words_of(command)[0].len() as int) == words_of(
            command,
        )[0],
        words_of(command).len() >= 2 ==> join_spaced(words_of(command)).len() > words_of(
            command,
        )[0].len() && join_spaced(words_of(command))[words_of(command)[0].len() as int] == ' ',
        join_spaced(words_of(command))[0] == words_of(command)[0][0],
{
    let words = words_of(command);
    let joined = join_spaced(words);
    assert(all_words(words)) by {
        assert forall|i: int| 0 <= i < words.len() implies is_word(#[trigger] words[i]) by {
            lemma_words_of(command, i);
        }
    }
    lemma_joined_words(words);
    lemma_line_trimmed(joined);
    assert(joined.take(words[0].len() as int)[0] == joined[0]);
}

/// A line that does not begin with `m` is of the text dialect.
proof fn lemma_text_line(line: Seq<char>)
    requires
        line.len() > 0,
        line[0] != 'm',
    ensures
        !crate::protocol::is_meta_line(line),
{
    reveal_strlit("mg ");
    reveal_strlit("mn");
    if line.len() >= 3 {
        assert(line.take(3)[0] == line[0]);
    }
}

proof fn lemma_get_round_trip(command: CommandView)
    requires
        fits_a_line(command),
        command is Get || command is Gets,
    ensures
        parse_text_spec(line_of(command)) == Ok::<
            CommandContextView,
            crate::protocol::ParseErrorView,
        >(CommandContextView { command, protocol: ProtocolType::Text }),
{
    reveal_strlit("get");
    reveal_strlit("gets");
    lemma_line_words(command);
    let parts = words_of(command);
    lemma_text_line(join_spaced(parts));
    match command {
        CommandView::Get(keys) => {
            assert(parts.skip(1) == keys);
        },
        CommandView::Gets(keys) => {
            assert(parts.skip(1) == keys);
        },
        _ => {},
    }
}

proof fn lemma_gat_round_trip(command: CommandView)
    requires
        fits_a_line(command),
        command is Gat || command is Gats,
    ensures
        parse_text_spec(line_of(command)) == Ok::<
            CommandContextView,
            crate::protocol::ParseErrorView,
        >(CommandContextView { command, protocol: ProtocolType::Text }),
{
    reveal_strlit("get");
    reveal_strlit("gets");
    reveal_strlit("gat");
    reveal_strlit("gats");
    lemma_line_words(command);
    let parts = words_of(command);
    lemma_text_line(join_spaced(parts));
    match command {
        CommandView::Gat(exptime, keys) => {
            lemma_number_word(exptime as nat, u32::MAX as nat);
            assert(parts.skip(2) == keys);
            assert(parts[0] == "gat"@);
            assert(parts[0] != "get"@) by {
                assert("gat"@[1] != "get"@[1]);
            }
            assert(parts[1] == decimal(exptime as nat));
            assert(parts.len() >= 3);
            assert(parts[0] != "gets"@);
            assert(parse_decimal(parts[1], u32::MAX as nat) == Some(exptime as nat));
            assert(crate::protocol::text::keyed_with_exptime(
                parts,
                false,
                "gat requires exptime and at least one key"@,
                "invalid exptime in gat command"@,
            ) == Ok::<CommandView, crate::protocol::ParseErrorView>(command));
            assert(crate::protocol::text::parse_spec(join_spaced(parts)) == Ok::<
                CommandView,
                crate::protocol::ParseErrorView,
            >(command));
            let t = trimmed(line_of(command));
            assert(t == join_spaced(parts));
            assert(t.len() > 0);
            assert(!crate::protocol::is_meta_line(t));
            assert(parse_text_spec(line_of(command)) == crate::protocol::in_dialect(
                crate::protocol::text::parse_spec(t),
                ProtocolType::Text,
            ));
        },
        CommandView::Gats(exptime, keys) => {
            lemma_number_word(exptime as nat, u32::MAX as nat);
            assert(parts.skip(2) == keys);
            assert(parts[0] == "gats"@);
            assert(parts[1] == decimal(exptime as nat));
            assert(parts.len() >= 3);
        },
        _ => {},
    }
}

proof fn lemma_plain_round_trip(command: CommandView)
    requires
        command is Version || command is Quit || command == CommandView::Stats(None),
    ensures
        parse_text_spec(line_of(command)) == Ok::<
            CommandContextView,
            crate::protocol::ParseErrorView,
        >(CommandContextView { command, protocol: ProtocolType::Text }),
{
    reveal_strlit("get");
    reveal_strlit("gets");
    reveal_strlit("gat");
    reveal_strlit("gats");
    reveal_strlit("version");
    reveal_strlit("stats");
    reveal_strlit("touch");
    reveal_strlit("quit");
    lemma_line_words(command);
    lemma_text_line(join_spaced(words_of(command)));
}

proof fn lemma_touch_round_trip(command: CommandView)
    requires
        fits_a_line(command),
        command is Touch,
    ensures
        parse_text_spec(line_of(command)) == Ok::<
            CommandContextView,
            crate::protocol::ParseErrorView,
        >(CommandContextView { command, protocol: ProtocolType::Text }),
{
    reveal_strlit("get");
    reveal_strlit("gets");
    reveal_strlit("gat");
    reveal_strlit("gats");
    reveal_strlit("version");
    reveal_strlit("stats");
    reveal_strlit("touch");
    lemma_line_words(command);
    lemma_text_line(join_spaced(words_of(command)));
    match command {
        CommandView::Touch(key, exptime) => {
            lemma_number_word(exptime as nat, u32::MAX as nat);
        },
        _ => {},
    }
}

proof fn lemma_stats_round_trip(about: Seq<char>)
    requires
        fits_a_line(CommandView::Stats(Some(about))),
    ensures
        parse_text_spec(line_of(CommandView::Stats(Some(about)))) == Ok::<
            CommandContextView,
            crate::protocol::ParseErrorView,
        >(
            CommandContextView {
                command: CommandView::Stats(Some(about)),
                protocol: ProtocolType::Text,
            },
        ),
{
    reveal_strlit("get");
    reveal_strlit("gets");
    reveal_strlit("gat");
    reveal_strlit("gats");
    reveal_strlit("version");
    reveal_strlit("stats");
    let words = words_of(CommandView::Stats(Some(about)));
    let joined = join_spaced(words);
    let name = "stats"@;
    assert(is_word(name));
    assert(joined == name + seq![' '] + about) by {
        assert(words.drop_last() == seq![name]);
        assert(join_spaced(seq![name]) == name);
        assert(words.last() == about);
    }
    lemma_tokens_split(name, about);
    lemma_tokens_of_word(name);
    lemma_tokens_are_words(about, 0);
    assert(all_words(tokens(about)));
    lemma_joined_words(tokens(about));
    assert(joined.last() == about.last());
    assert(joined[0] == 's');
    lemma_line_trimmed(joined);
    lemma_text_line(joined);
    let parts = tokens(joined);
    assert(parts == seq![name] + tokens(about));
    assert(parts.skip(1) == tokens(about));
    assert(parts[0] == name);
}

proof fn lemma_meta_round_trip(command: CommandView)
    requires
        fits_a_line(command),
        command is MetaGet || command is MetaNoOp,
    ensures
        parse_text_spec(line_of(command)) == Ok::<
            CommandContextView,
            crate::protocol::ParseErrorView,
        >(CommandContextView { command, protocol: ProtocolType::Meta }),
{
    reveal_strlit("mg");
    reveal_strlit("mg ");
    reveal_strlit("mn");
    lemma_line_words(command);
    let parts = words_of(command);
    let joined = join_spaced(parts);
    match command {
        CommandView::MetaGet(key, flags) => {
            assert(joined.take(3) == "mg "@) by {
                assert(joined.take(2) == "mg"@);
                assert(joined.take(3)[0] == joined.take(2)[0]);
                assert(joined.take(3)[1] == joined.take(2)[1]);
                assert(joined.take(3) =~= "mg "@);
            }
            lemma_flags_read_back(parts, flags, 0);
            assert(flags.skip(0) == flags);
        },
        _ => {
            assert(joined == "mn"@);
        },
    }
}

/// What is written is read back: the line that asks for a command is
/// parsed as that command, in the dialect it was written in.
pub proof fn lemma_line_round_trip(command: CommandView)
    requires
        fits_a_line(command),
    ensures
        parse_text_spec(line_of(command)) == Ok::<
            CommandContextView,
            crate::protocol::ParseErrorView,
        >(CommandContextView { command, protocol: line_dialect(command) }),
{
    match command {
        CommandView::Get(_) => lemma_get_round_trip(command),
        CommandView::Gets(_) => lemma_get_round_trip(command),
        CommandView::Gat(_, _) => lemma_gat_round_trip(command),
        CommandView::Gats(_, _) => lemma_gat_round_trip(command),
        CommandView::MetaGet(_, _) => lemma_meta_round_trip(command),
        CommandView::MetaNoOp => lemma_meta_round_trip(command),
        CommandView::Version => lemma_plain_round_trip(command),
        CommandView::Stats(None) => lemma_plain_round_trip(command),
        CommandView::Stats(Some(about)) => lemma_stats_round_trip(about),
        CommandView::Touch(_, _) => lemma_touch_round_trip(command),
        CommandView::Quit => lemma_plain_round_trip(command),
    }
}

/// Each word of the line of a command that fits a line is a word, but
/// for what statistics are asked about.
proof fn lemma_words_of(command: CommandView, i: int)
    requires
        fits_a_line(command),
        !(command matches CommandView::Stats(Some(_))),
        0 <= i < words_of(command).len(),
    ensures
        is_word(words_of(command)[i]),
{
    reveal_strlit("get");
    reveal_strlit("gets");
    reveal_strlit("gat");
    reveal_strlit("gats");
    reveal_strlit("mg");
    reveal_strlit("mn");
    reveal_strlit("version");
    reveal_strlit("stats");
    reveal_strlit("touch");
    reveal_strlit("quit");
    let words = words_of(command);
    match command {
        CommandView::Get(keys) => {
            if i >= 1 {
                assert(words[i] == keys[i - 1]);
            }
        },
        CommandView::Gets(keys) => {
            if i >= 1 {
                assert(words[i] == keys[i - 1]);
            }
        },
        CommandView::Gat(exptime, keys) => {
            lemma_number_word(exptime as nat, u32::MAX as nat);
            if i >= 2 {
                assert(words[i] == keys[i - 2]);
            }
        },
        CommandView::Gats(exptime, keys) => {
            lemma_number_word(exptime as nat, u32::MAX as nat);
            if i >= 2 {
                assert(words[i] == keys[i - 2]);
            }
        },
        CommandView::MetaGet(key, flags) => {
            if i >= 2 {
                assert(words[i] == flag_text(flags[i - 2]));
                lemma_flag_read_back(flags[i - 2]);
            }
        },
        CommandView::Touch(key, exptime) => {
            lemma_number_word(exptime as nat, u32::MAX as nat);
        },
        _ => {},
    }
}

//- Packets ---------------------------------------------------------------------
/// The header of a request with a key and nothing else in its body.
pub open spec fn request_header(opcode: u8, key_length: u16, opaque: u32) -> BinaryHeader {
    BinaryHeader {
        magic: MAGIC_REQUEST,
        opcode,
        key_length,
        extras_length: 0,
        data_type: 0,
        status_or_reserved: 0,
        total_body_length: key_length as u32,
        opaque,
        cas: 0,
    }
}

/// The packet of a request with the given opcode and key; nothing where
/// the key is too long for a packet.
pub open spec fn key_packet(opcode: u8, key: Seq<char>, opaque: u32) -> Option<Seq<u8>> {
    if encode_utf8(key).len() > u16::MAX {
        None
    } else {
        Some(
            header_bytes(request_header(opcode, encode_utf8(key).len() as u16, opaque))
                + encode_utf8(key),
        )
    }
}

/// The packet that asks for `command` and carries `opaque`; nothing where
/// the binary dialect has no such request: it asks for one key at a time,
/// knows no expiration times, and touches by deleting.
pub open spec fn packet_of(command: CommandView, opaque: u32) -> Option<Seq<u8>> {
    match command {
        CommandView::Get(keys) => if keys.len() == 1 {
            key_packet(OPCODE_GET, keys[0], opaque)
        } else {
            None
        },
        CommandView::Version => key_packet(OPCODE_VERSION, Seq::empty(), opaque),
        CommandView::Quit => key_packet(OPCODE_QUIT, Seq::empty(), opaque),
        CommandView::Stats(None) => key_packet(OPCODE_STAT, Seq::empty(), opaque),
        CommandView::Stats(Some(about)) => key_packet(OPCODE_STAT, about, opaque),
        CommandView::Touch(key, exptime) => if exptime == 0 {
            key_packet(OPCODE_DELETE, key, opaque)
        } else {
            None
        },
        _ => None,
    }
}

/// Whether a packet can say `command` and nothing else: there is a packet
/// for it, and the key or what statistics are asked about is not empty.
pub open spec fn fits_a_packet(command: CommandView) -> bool {
    &&& packet_of(command, 0) is Some
    &&& match command {
        CommandView::Get(keys) => keys[0].len() > 0,
        CommandView::Stats(Some(about)) => about.len() > 0,
        CommandView::Touch(key, _) => key.len() > 0,
        _ => true,
    }
}

fn write_key_packet(opcode: u8, key: &str, opaque: u32) -> (r: Option<Vec<u8>>)
    ensures
        match r {
            Some(packet) => key_packet(opcode, key@, opaque) == Some(packet@),
            None => key_packet(opcode, key@, opaque) is None,
        },
{
    let bytes = key.as_bytes();
    if bytes.len() > 0xffff {
        return None;
    }
    let header = BinaryHeader {
        magic: MAGIC_REQUEST,
        opcode,
        key_length: bytes.len() as u16,
        extras_length: 0,
        data_type: 0,
        status_or_reserved: 0,
        total_body_length: bytes.len() as u32,
        opaque,
        cas: 0,
    };
    let mut out: Vec<u8> = Vec::new();
    header.write_to(&mut out);
    out.extend_from_slice(bytes);
    assert(out@ =~= key_packet(opcode, key@, opaque).unwrap());
    Some(out)
}

impl Command {
    /// The packet that asks for this command and carries `opaque`, as a
    /// client writes it; nothing where the binary dialect has no such
    /// request.
    pub fn request_packet(&self, opaque: u32) -> (r: Option<Vec<u8>>)
        ensures
            match r {
                Some(packet) => packet_of(self@, opaque) == Some(packet@),
                None => packet_of(self@, opaque) is None,
            },
    {
        proof {
            reveal_strlit("");
            assert(""@ == Seq::<char>::empty());
        }
        match self {
            Command::Get(keys) => {
                if keys.len() == 1 {
                    assert(string_views(keys@)[0] == keys@[0]@);
                    write_key_packet(OPCODE_GET, keys[0].as_str(), opaque)
                } else {
                    None
                }
            },
            Command::Version => write_key_packet(OPCODE_VERSION, "", opaque),
            Command::Quit => write_key_packet(OPCODE_QUIT, "", opaque),
            Command::Stats(None) => write_key_packet(OPCODE_STAT, "", opaque),
            Command::Stats(Some(about)) => write_key_packet(OPCODE_STAT, about.as_str(), opaque),
            Command::Touch(key, exptime) => {
                if *exptime == 0 {
                    write_key_packet(OPCODE_DELETE, key.as_str(), opaque)
                } else {
                    None
                }
            },
            _ => None,
        }
    }
}

/// The packet of a key is read back as its header and the key.
proof fn lemma_key_packet(opcode: u8, key: Seq<char>, opaque: u32)
    requires
        key_packet(opcode, key, opaque) is Some,
    ensures
        ({
            let packet = key_packet(opcode, key, opaque)->0;
            let length = encode_utf8(key).len();
            &&& packet.len() == 24 + length
            &&& key.len() > 0 ==> length > 0
            &&& key.len() == 0 ==> length == 0
            &&& parse_binary_spec(packet) == match crate::protocol::binary::command_of(
                opcode,
                0,
                key,
                length,
                0,
            ) {
                Ok(command) => Ok::<(CommandView, u32, nat), crate::protocol::ParseErrorView>(
                    (command, opaque, packet.len()),
                ),
                Err(e) => Err(e),
            }
        }),
{
    let bytes = encode_utf8(key);
    let h = request_header(opcode, bytes.len() as u16, opaque);
    let packet = header_bytes(h) + bytes;
    lemma_header_bytes_len(h);
    lemma_header_round_trip(h, bytes);
    encode_utf8_valid_utf8(key);
    encode_utf8_decode_utf8(key);
    assert(packet.subrange(24, 24 + bytes.len() as int) == bytes);
    if key.len() > 0 {
        assert(bytes.len() >= vstd::utf8::encode_scalar(key[0] as u32).len());
    }
}

/// What is written is read back: the packet that asks for a command is
/// parsed as that command with the same opaque number, and to its end.
pub proof fn lemma_packet_round_trip(command: CommandView, opaque: u32)
    requires
        fits_a_packet(command),
    ensures
        packet_of(command, opaque) is Some,
        parse_binary_spec(packet_of(command, opaque)->0) == Ok::<
            (CommandView, u32, nat),
            crate::protocol::ParseErrorView,
        >((command, opaque, packet_of(command, opaque)->0.len())),
{
    match command {
        CommandView::Get(keys) => {
            lemma_key_packet(OPCODE_GET, keys[0], opaque);
            assert(seq![keys[0]] == keys);
        },
        CommandView::Version => lemma_key_packet(OPCODE_VERSION, Seq::empty(), opaque),
        CommandView::Quit => lemma_key_packet(OPCODE_QUIT, Seq::empty(), opaque),
        CommandView::Stats(None) => lemma_key_packet(OPCODE_STAT, Seq::empty(), opaque),
        CommandView::Stats(Some(about)) => lemma_key_packet(OPCODE_STAT, about, opaque),
        CommandView::Touch(key, _) => lemma_key_packet(OPCODE_DELETE, key, opaque),
        _ => {},
    }
}

} // verus!
