//! Placeholder substitution: `{name}` in a template is replaced by the text
//! that `name` stands for.

use crate::captures::Captures;
use crate::chars::{chars_of, string_of, views};
use crate::protocol::push_text;
use vstd::prelude::*;

verus! {

/// Where a substitution stands after some characters of the template: the
/// output so far, and the names of the placeholders that are open, the
/// innermost last.
pub struct Expansion {
    pub out: Seq<char>,
    pub frames: Seq<Seq<char>>,
}

/// Adds `s` to the innermost open placeholder, or to the output if none is
/// open.
pub open spec fn emit(e: Expansion, s: Seq<char>) -> Expansion {
    if e.frames.len() == 0 {
        Expansion { out: e.out + s, frames: e.frames }
    } else {
        Expansion { out: e.out, frames: e.frames.drop_last().push(e.frames.last() + s) }
    }
}

/// One character of the template. `{` opens a placeholder. `}` closes the
/// innermost one and adds what its name stands for to what encloses it,
/// nothing if the name stands for nothing; with no placeholder open it is
/// dropped. Any other character is added to what encloses it.
pub open spec fn step(e: Expansion, c: char, captures: Map<Seq<char>, Seq<char>>) -> Expansion {
    if c == '{' {
        Expansion { out: e.out, frames: e.frames.push(Seq::empty()) }
    } else if c == '}' {
        if e.frames.len() == 0 {
            e
        } else {
            let name = e.frames.last();
            let outer = Expansion { out: e.out, frames: e.frames.drop_last() };
            if captures.contains_key(name) {
                emit(outer, captures[name])
            } else {
                outer
            }
        }
    } else {
        emit(e, seq![c])
    }
}

/// The substitution after the characters of `text`, begun at `start`.
pub open spec fn expand_from(
    start: Expansion,
    text: Seq<char>,
    captures: Map<Seq<char>, Seq<char>>,
) -> Expansion
    decreases text.len(),
{
    if text.len() == 0 {
        start
    } else {
        step(expand_from(start, text.drop_last(), captures), text.last(), captures)
    }
}

/// The substitution after all of `text`.
pub open spec fn expand(text: Seq<char>, captures: Map<Seq<char>, Seq<char>>) -> Expansion {
    expand_from(Expansion { out: Seq::empty(), frames: Seq::empty() }, text, captures)
}

/// The template with its placeholders replaced. A placeholder that is
/// still open at the end is dropped.
pub open spec fn replaced(text: Seq<char>, captures: Map<Seq<char>, Seq<char>>) -> Seq<char> {
    expand(text, captures).out
}

/// Whether `s` holds neither `{` nor `}`.
pub open spec fn brace_free(s: Seq<char>) -> bool {
    forall|i: int| 0 <= i < s.len() ==> #[trigger] s[i] != '{' && s[i] != '}'
}

/// How many placeholders are open after `text`, counting a `}` too many as
/// one below.
pub open spec fn depth(text: Seq<char>) -> int
    decreases text.len(),
{
    if text.len() == 0 {
        0
    } else if text.last() == '{' {
        depth(text.drop_last()) + 1
    } else if text.last() == '}' {
        depth(text.drop_last()) - 1
    } else {
        depth(text.drop_last())
    }
}

/// Whether the braces of `text` are balanced: every `}` closes a `{` before
/// it, and none is left open.
pub open spec fn balanced(text: Seq<char>) -> bool {
    &&& depth(text) == 0
    &&& forall|k: int| 0 <= k <= text.len() ==> depth(#[trigger] text.take(k)) >= 0
}

/// Replaces each `{name}` in `text` by what `name` stands for in
/// `replacements`, and by nothing if it stands for nothing. Placeholders
/// nest: the name of an outer one is read after the inner ones in it have
/// been replaced.
pub fn replace_placeholders(text: &str, replacements: &Captures) -> (r: String)
    ensures
        r@ == replaced(text@, replacements@),
{
    let chars = chars_of(text);
    let mut out: Vec<char> = Vec::new();
    let mut frames: Vec<Vec<char>> = Vec::new();
    let mut i: usize = 0;
    assert(chars@.take(0) == Seq::<char>::empty());
    assert(views(frames@) == Seq::<Seq<char>>::empty());
    while i < chars.len()
        invariant
            i <= chars.len(),
            chars@ == text@,
            (Expansion { out: out@, frames: views(frames@) }) == expand(
                chars@.take(i as int),
                replacements@,
            ),
        decreases chars.len() - i,
    {
        let c = chars[i];
        let ghost before = Expansion { out: out@, frames: views(frames@) };
        proof {
            assert(chars@.take(i + 1).drop_last() == chars@.take(i as int));
            assert(chars@.take(i + 1).last() == c);
            assert(expand(chars@.take(i + 1), replacements@) == step(before, c, replacements@));
        }
        if c == '{' {
            let frame: Vec<char> = Vec::new();
            assert(views(frames@.push(frame)) == views(frames@).push(frame@));
            frames.push(frame);
        } else if c == '}' {
            match frames.pop() {
                Some(frame) => {
                    assert(views(frames@) == before.frames.drop_last());
                    assert(frame@ == before.frames.last());
                    let name = string_of(frame.as_slice());
                    match replacements.get(name.as_str()) {
                        Some(replacement) => {
                            emit_text(&mut out, &mut frames, replacement.as_str());
                        },
                        None => {},
                    }
                },
                None => {
                    assert(views(frames@) == before.frames);
                },
            }
        } else {
            let mut one = String::new();
            one.push(c);
            assert(one@ == seq![c]);
            emit_text(&mut out, &mut frames, one.as_str());
        }
        i += 1;
    }
    assert(chars@.take(chars.len() as int) == chars@);
    string_of(out.as_slice())
}

/// Adds `s` to the innermost open placeholder, or to the output if none is
/// open.
fn emit_text(out: &mut Vec<char>, frames: &mut Vec<Vec<char>>, s: &str)
    ensures
        (Expansion { out: final(out)@, frames: views(final(frames)@) }) == emit(
            Expansion { out: old(out)@, frames: views(old(frames)@) },
            s@,
        ),
{
    let ghost before = views(frames@);
    match frames.pop() {
        Some(mut top) => {
            assert(views(frames@) == before.drop_last());
            assert(top@ == before.last());
            push_text(&mut top, s);
            assert(views(frames@.push(top)) == views(frames@).push(top@));
            frames.push(top);
        },
        None => {
            assert(views(frames@) == before);
            push_text(out, s);
        },
    }
}

/// What `name` stands for, and nothing if it stands for nothing.
pub open spec fn value_of(name: Seq<char>, captures: Map<Seq<char>, Seq<char>>) -> Seq<char> {
    if captures.contains_key(name) {
        captures[name]
    } else {
        Seq::empty()
    }
}

/// Whether no brace stands in the output or in an open placeholder.
pub open spec fn holds_no_brace(e: Expansion) -> bool {
    &&& brace_free(e.out)
    &&& forall|k: int| 0 <= k < e.frames.len() ==> brace_free(#[trigger] e.frames[k])
}

proof fn lemma_emit_holds_no_brace(e: Expansion, s: Seq<char>)
    requires
        holds_no_brace(e),
        brace_free(s),
    ensures
        holds_no_brace(emit(e, s)),
{
    let after = emit(e, s);
    if e.frames.len() == 0 {
        assert forall|i: int| 0 <= i < after.out.len() implies #[trigger] after.out[i] != '{'
            && after.out[i] != '}' by {
            if i >= e.out.len() {
                assert(after.out[i] == s[i - e.out.len()]);
            } else {
                assert(after.out[i] == e.out[i]);
            }
        }
    } else {
        let top = e.frames.last() + s;
        assert(brace_free(e.frames.last()));
        assert forall|i: int| 0 <= i < top.len() implies #[trigger] top[i] != '{' && top[i]
            != '}' by {
            if i >= e.frames.last().len() {
                assert(top[i] == s[i - e.frames.last().len()]);
            } else {
                assert(top[i] == e.frames.last()[i]);
            }
        }
        assert forall|k: int| 0 <= k < after.frames.len() implies brace_free(
            #[trigger] after.frames[k],
        ) by {
            if k < e.frames.len() - 1 {
                assert(after.frames[k] == e.frames[k]);
            }
        }
    }
}

proof fn lemma_expand_holds_no_brace(text: Seq<char>, captures: Map<Seq<char>, Seq<char>>)
    requires
        forall|name: Seq<char>| captures.contains_key(name) ==> brace_free(#[trigger] captures[name]),
    ensures
        holds_no_brace(expand(text, captures)),
    decreases text.len(),
{
    if text.len() > 0 {
        lemma_expand_holds_no_brace(text.drop_last(), captures);
        let e = expand(text.drop_last(), captures);
        let c = text.last();
        if c == '{' {
            let after = step(e, c, captures);
            assert forall|k: int| 0 <= k < after.frames.len() implies brace_free(
                #[trigger] after.frames[k],
            ) by {
                if k < e.frames.len() {
                    assert(after.frames[k] == e.frames[k]);
                }
            }
        } else if c == '}' {
            if e.frames.len() > 0 {
                let outer = Expansion { out: e.out, frames: e.frames.drop_last() };
                assert forall|k: int| 0 <= k < outer.frames.len() implies brace_free(
                    #[trigger] outer.frames[k],
                ) by {
                    assert(outer.frames[k] == e.frames[k]);
                }
                if captures.contains_key(e.frames.last()) {
                    lemma_emit_holds_no_brace(outer, captures[e.frames.last()]);
                }
            }
        } else {
            lemma_emit_holds_no_brace(e, seq![c]);
        }
    }
}

/// No brace of a template reaches the output: where the text that the names
/// stand for holds no brace, neither does the result, so that no
/// placeholder is left in it.
pub proof fn lemma_no_placeholder_remains(text: Seq<char>, captures: Map<Seq<char>, Seq<char>>)
    requires
        forall|name: Seq<char>| captures.contains_key(name) ==> brace_free(#[trigger] captures[name]),
    ensures
        brace_free(replaced(text, captures)),
{
    lemma_expand_holds_no_brace(text, captures);
}

/// A substitution that goes on over `a + b` is the one over `a`, gone on
/// over `b`.
pub proof fn lemma_expand_concat(
    start: Expansion,
    a: Seq<char>,
    b: Seq<char>,
    captures: Map<Seq<char>, Seq<char>>,
)
    ensures
        expand_from(start, a + b, captures) == expand_from(
            expand_from(start, a, captures),
            b,
            captures,
        ),
    decreases b.len(),
{
    if b.len() == 0 {
        assert(a + b == a);
    } else {
        lemma_expand_concat(start, a, b.drop_last(), captures);
        assert((a + b).drop_last() == a + b.drop_last());
        assert((a + b).last() == b.last());
    }
}

/// With no placeholder open, what was put out before does not change what
/// follows: it only stands in front of it.
pub proof fn lemma_expand_after_output(
    out: Seq<char>,
    text: Seq<char>,
    captures: Map<Seq<char>, Seq<char>>,
)
    ensures
        expand_from(Expansion { out, frames: Seq::empty() }, text, captures).out == out + expand(
            text,
            captures,
        ).out,
        expand_from(Expansion { out, frames: Seq::empty() }, text, captures).frames == expand(
            text,
            captures,
        ).frames,
    decreases text.len(),
{
    let start = Expansion { out, frames: Seq::empty() };
    if text.len() == 0 {
        assert(out + Seq::<char>::empty() == out);
    } else {
        lemma_expand_after_output(out, text.drop_last(), captures);
        let with = expand_from(start, text.drop_last(), captures);
        let without = expand(text.drop_last(), captures);
        let c = text.last();
        let with_next = step(with, c, captures);
        let without_next = step(without, c, captures);
        if c == '{' {
        } else if c == '}' {
            if with.frames.len() > 0 {
                let name = with.frames.last();
                if captures.contains_key(name) {
                    if with.frames.drop_last().len() == 0 {
                        assert(with_next.out == out + without_next.out);
                    }
                }
            }
        } else {
            if with.frames.len() == 0 {
                assert(with_next.out == out + without_next.out);
            }
        }
    }
}

/// The characters of a name fill the innermost open placeholder.
pub proof fn lemma_expand_name(
    start: Expansion,
    name: Seq<char>,
    captures: Map<Seq<char>, Seq<char>>,
)
    requires
        start.frames.len() > 0,
        brace_free(name),
    ensures
        expand_from(start, name, captures) == (Expansion {
            out: start.out,
            frames: start.frames.drop_last().push(start.frames.last() + name),
        }),
    decreases name.len(),
{
    if name.len() == 0 {
        assert(start.frames.last() + name == start.frames.last());
        assert(start.frames.drop_last().push(start.frames.last()) == start.frames);
    } else {
        assert(brace_free(name.drop_last())) by {
            assert forall|i: int| 0 <= i < name.drop_last().len() implies #[trigger] name.drop_last()[i]
                != '{' && name.drop_last()[i] != '}' by {
                assert(name.drop_last()[i] == name[i]);
            }
        }
        lemma_expand_name(start, name.drop_last(), captures);
        let c = name.last();
        assert(c == name[name.len() - 1]);
        let before = expand_from(start, name.drop_last(), captures);
        assert(before.frames.last() + seq![c] == start.frames.last() + name) by {
            assert(name == name.drop_last() + seq![c]);
            assert(before.frames.last() == start.frames.last() + name.drop_last());
            assert((start.frames.last() + name.drop_last()) + seq![c] == start.frames.last() + (
            name.drop_last() + seq![c]));
        }
        assert(before.frames.drop_last() == start.frames.drop_last());
    }
}

/// In a template whose every prefix has closed no more placeholders than
/// it has opened, as many are open at the end as the braces count.
pub proof fn lemma_open_placeholders(text: Seq<char>, captures: Map<Seq<char>, Seq<char>>)
    requires
        forall|k: int| 0 <= k <= text.len() ==> depth(#[trigger] text.take(k)) >= 0,
    ensures
        expand(text, captures).frames.len() == depth(text),
    decreases text.len(),
{
    if text.len() > 0 {
        let front = text.drop_last();
        assert forall|k: int| 0 <= k <= front.len() implies depth(#[trigger] front.take(k))
            >= 0 by {
            assert(front.take(k) == text.take(k));
        }
        lemma_open_placeholders(front, captures);
        assert(text.take(text.len() as int) == text);
        assert(depth(text) >= 0);
    }
}

/// A template without braces is its own result.
pub proof fn lemma_plain_text_unchanged(text: Seq<char>, captures: Map<Seq<char>, Seq<char>>)
    requires
        brace_free(text),
    ensures
        replaced(text, captures) == text,
        expand(text, captures).frames.len() == 0,
    decreases text.len(),
{
    if text.len() > 0 {
        assert(brace_free(text.drop_last())) by {
            assert forall|i: int| 0 <= i < text.drop_last().len() implies #[trigger] text.drop_last()[i]
                != '{' && text.drop_last()[i] != '}' by {
                assert(text.drop_last()[i] == text[i]);
            }
        }
        lemma_plain_text_unchanged(text.drop_last(), captures);
        assert(text.last() == text[text.len() - 1]);
        assert(text.drop_last() + seq![text.last()] == text);
    }
}

/// The text of a template with `{name}` between `a` and `b`.
pub open spec fn with_placeholder(a: Seq<char>, name: Seq<char>, b: Seq<char>) -> Seq<char> {
    a + seq!['{'] + name + seq!['}'] + b
}

/// A placeholder after balanced text is replaced by what its name stands
/// for, and by nothing where the name stands for nothing; the text before
/// it and the text after it are replaced as they would be alone.
pub proof fn lemma_placeholder_replaced(
    a: Seq<char>,
    name: Seq<char>,
    b: Seq<char>,
    captures: Map<Seq<char>, Seq<char>>,
)
    requires
        balanced(a),
        brace_free(name),
    ensures
        replaced(with_placeholder(a, name, b), captures) == replaced(a, captures) + value_of(
            name,
            captures,
        ) + replaced(b, captures),
{
    let init = Expansion { out: Seq::empty(), frames: Seq::empty() };
    lemma_open_placeholders(a, captures);
    let after_a = expand(a, captures);
    assert(after_a.frames == Seq::<Seq<char>>::empty());
    let opened = step(after_a, '{', captures);
    assert(opened.frames == seq![Seq::<char>::empty()]);
    lemma_expand_name(opened, name, captures);
    let named = expand_from(opened, name, captures);
    assert(named.frames == seq![name]) by {
        assert(Seq::<char>::empty() + name == name);
        assert(opened.frames.drop_last().push(name) == seq![name]);
    }
    let closed = step(named, '}', captures);
    assert(closed.frames == Seq::<Seq<char>>::empty());
    assert(closed.out == after_a.out + value_of(name, captures)) by {
        assert(after_a.out + Seq::<char>::empty() == after_a.out);
    }
    lemma_expand_after_output(closed.out, b, captures);
    let open = seq!['{'];
    let close = seq!['}'];
    lemma_expand_concat(init, a, open, captures);
    assert(expand_from(after_a, open, captures) == opened) by {
        reveal_with_fuel(expand_from, 2);
        assert(open.drop_last() == Seq::<char>::empty());
        assert(open.last() == '{');
    }
    lemma_expand_concat(init, a + open, name, captures);
    lemma_expand_concat(init, a + open + name, close, captures);
    assert(expand_from(named, close, captures) == closed) by {
        reveal_with_fuel(expand_from, 2);
        assert(close.drop_last() == Seq::<char>::empty());
        assert(close.last() == '}');
    }
    lemma_expand_concat(init, a + open + name + close, b, captures);
    assert(closed == (Expansion { out: closed.out, frames: Seq::empty() }));
}

} // verus!
