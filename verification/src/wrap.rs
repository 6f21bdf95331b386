//! Word wrapping for the speech bubble: splitting a message into words,
//! greedily packing the words into lines of a fixed width, and decorating
//! each line with a bar border.

use vstd::prelude::*;

verus! {

/// The characters that separate words: the Unicode White_Space set, as
/// `char::is_whitespace` and `str::split_whitespace` read it.
pub open spec fn is_wspace(c: char) -> bool {
    c == ' ' || c == '\t' || c == '\n' || c == '\u{b}' || c == '\u{c}' || c == '\r' || c
        == '\u{85}' || c == '\u{a0}' || c == '\u{1680}' || c == '\u{2000}' || c == '\u{2001}'
        || c == '\u{2002}' || c == '\u{2003}' || c == '\u{2004}' || c == '\u{2005}' || c
        == '\u{2006}' || c == '\u{2007}' || c == '\u{2008}' || c == '\u{2009}' || c == '\u{200a}'
        || c == '\u{2028}' || c == '\u{2029}' || c == '\u{202f}' || c == '\u{205f}' || c
        == '\u{3000}'
}

/// Whether `c` separates words.
pub fn is_wspace_char(c: char) -> (r: bool)
    ensures
        r == is_wspace(c),
{
    c == ' ' || c == '\t' || c == '\n' || c == '\u{b}' || c == '\u{c}' || c == '\r' || c
        == '\u{85}' || c == '\u{a0}' || c == '\u{1680}' || c == '\u{2000}' || c == '\u{2001}'
        || c == '\u{2002}' || c == '\u{2003}' || c == '\u{2004}' || c == '\u{2005}' || c
        == '\u{2006}' || c == '\u{2007}' || c == '\u{2008}' || c == '\u{2009}' || c == '\u{200a}'
        || c == '\u{2028}' || c == '\u{2029}' || c == '\u{202f}' || c == '\u{205f}' || c
        == '\u{3000}'
}

/// One step of splitting: feed one character into the splitter state.
/// The state is the pair (finished words, word currently being read).
pub open spec fn split_step(st: (Seq<Seq<char>>, Seq<char>), c: char) -> (Seq<Seq<char>>, Seq<char>) {
    if is_wspace(c) {
        if st.1.len() == 0 {
            st
        } else {
            (st.0.push(st.1), Seq::empty())
        }
    } else {
        (st.0, st.1.push(c))
    }
}

/// Splitter state after reading all of `s`, character by character.
pub open spec fn split_state(s: Seq<char>) -> (Seq<Seq<char>>, Seq<char>)
    decreases s.len(),
{
    if s.len() == 0 {
        (Seq::empty(), Seq::empty())
    } else {
        split_step(split_state(s.drop_last()), s.last())
    }
}

/// Close a fold state: the pending run, if non-empty, becomes a final element.
pub open spec fn close_state(st: (Seq<Seq<char>>, Seq<char>)) -> Seq<Seq<char>> {
    if st.1.len() == 0 {
        st.0
    } else {
        st.0.push(st.1)
    }
}

/// The words of `s`: maximal runs of non-whitespace characters, in order.
/// Empty words do not occur; consecutive separators collapse.
pub open spec fn words_of(s: Seq<char>) -> Seq<Seq<char>> {
    close_state(split_state(s))
}

/// One step of greedy wrapping: feed one word into the wrapper state.
/// The state is the pair (finished lines, line currently being filled).
/// A word that would not fit after the current line (counting the single
/// joining space) closes that line first; a word never moves to a new line
/// when the current one is still empty, so an over-long word stands alone.
pub open spec fn wrap_step(st: (Seq<Seq<char>>, Seq<char>), w: Seq<char>, width: int) -> (
    Seq<Seq<char>>,
    Seq<char>,
) {
    if st.1.len() + w.len() + 1 > width && st.1.len() > 0 {
        (st.0.push(st.1), w)
    } else if st.1.len() == 0 {
        (st.0, w)
    } else {
        (st.0, st.1 + seq![' '] + w)
    }
}

/// Wrapper state after feeding all of `ws`, word by word.
pub open spec fn wrap_state(ws: Seq<Seq<char>>, width: int) -> (Seq<Seq<char>>, Seq<char>)
    decreases ws.len(),
{
    if ws.len() == 0 {
        (Seq::empty(), Seq::empty())
    } else {
        wrap_step(wrap_state(ws.drop_last(), width), ws.last(), width)
    }
}

/// The lines obtained by greedily wrapping the words `ws` at `width`.
pub open spec fn lines_of(ws: Seq<Seq<char>>, width: int) -> Seq<Seq<char>> {
    close_state(wrap_state(ws, width))
}

/// The lines of the wrapped message body, before border decoration.
pub open spec fn wrapped_lines(s: Seq<char>, width: int) -> Seq<Seq<char>> {
    lines_of(words_of(s), width)
}

/// Relies on `String::push`: appends the given character to the end of the
/// string. vstd specifies most of `String` but not `push`.
#[verifier::external_body]
pub(crate) fn push_char(s: &mut String, c: char)
    ensures
        final(s)@ == old(s)@.push(c),
{
    s.push(c);
}

/// Splits `msg` into its whitespace-separated words.
pub fn split_words(msg: &str) -> (words: Vec<String>)
    ensures
        words.deep_view() == words_of(msg@),
{
    let n = msg.unicode_len();
    let mut words: Vec<String> = Vec::new();
    let mut cur = String::new();
    let mut i: usize = 0;
    while i < n
        invariant
            n as nat == msg@.len(),
            i <= n,
            (words.deep_view(), cur@) == split_state(msg@.take(i as int)),
        decreases n - i,
    {
        let c = msg.get_char(i);
        proof {
            assert(msg@.take(i + 1).drop_last() =~= msg@.take(i as int));
            assert(msg@.take(i + 1).last() == c);
        }
        if is_wspace_char(c) {
            if !cur.as_str().is_empty() {
                let ghost prev = words.deep_view();
                words.push(cur);
                cur = String::new();
                proof {
                    assert(words.deep_view() =~= prev.push(split_state(
                        msg@.take(i as int),
                    ).1));
                }
            }
        } else {
            push_char(&mut cur, c);
        }
        i = i + 1;
    }
    proof {
        assert(msg@.take(n as int) =~= msg@);
    }
    if !cur.as_str().is_empty() {
        let ghost prev = words.deep_view();
        words.push(cur);
        proof {
            assert(words.deep_view() =~= prev.push(split_state(msg@).1));
        }
    }
    words
}

/// Greedily packs `words` into lines of at most `width` characters
/// (an over-long single word keeps its own line), joining with single spaces.
pub fn wrap_words(words: &Vec<String>, width: usize) -> (lines: Vec<String>)
    ensures
        lines.deep_view() == lines_of(words.deep_view(), width as int),
{
    let mut lines: Vec<String> = Vec::new();
    let mut cur = String::new();
    let mut j: usize = 0;
    while j < words.len()
        invariant
            j <= words.len(),
            (lines.deep_view(), cur@) == wrap_state(
                words.deep_view().take(j as int),
                width as int,
            ),
        decreases words.len() - j,
    {
        let w = &words[j];
        proof {
            assert(words.deep_view().take(j + 1).drop_last() =~= words.deep_view().take(
                j as int,
            ));
            assert(words.deep_view().take(j + 1).last() == w@);
        }
        let cur_chars = cur.as_str().unicode_len();
        let w_chars = w.as_str().unicode_len();
        // `cur_chars + w_chars + 1 > width`, computed without overflow.
        let over = cur_chars >= width || w_chars >= width - cur_chars;
        if over && cur_chars > 0 {
            let ghost prev = lines.deep_view();
            lines.push(cur);
            cur = String::new();
            cur.append(w.as_str());
            proof {
                assert(lines.deep_view() =~= prev.push(wrap_state(
                    words.deep_view().take(j as int),
                    width as int,
                ).1));
            }
        } else if cur_chars == 0 {
            cur = String::new();
            cur.append(w.as_str());
        } else {
            push_char(&mut cur, ' ');
            cur.append(w.as_str());
            proof {
                assert(cur@ =~= wrap_state(words.deep_view().take(j as int), width as int).1
                    + seq![' '] + w@);
            }
        }
        j = j + 1;
    }
    proof {
        assert(words.deep_view().take(words.deep_view().len() as int) =~= words.deep_view());
    }
    if !cur.as_str().is_empty() {
        let ghost prev = lines.deep_view();
        lines.push(cur);
        proof {
            assert(lines.deep_view() =~= prev.push(wrap_state(words.deep_view(), width as int).1));
        }
    }
    lines
}

/// `n` spaces (none when `n` is not positive).
pub open spec fn spaces(n: int) -> Seq<char> {
    Seq::new(if n < 0 { 0nat } else { n as nat }, |i: int| ' ')
}

/// A body line decorated with the bar border: `| `, the line content
/// right-padded with spaces to `width` characters, then ` |`. Content
/// longer than `width` is kept whole, with no padding.
pub open spec fn bordered(line: Seq<char>, width: int) -> Seq<char> {
    seq!['|', ' '] + line + spaces(width - line.len()) + seq![' ', '|']
}

/// The lines joined with single newlines and no trailing newline.
pub open spec fn joined(lines: Seq<Seq<char>>) -> Seq<char>
    decreases lines.len(),
{
    if lines.len() == 0 {
        Seq::empty()
    } else if lines.len() == 1 {
        lines[0]
    } else {
        joined(lines.drop_last()) + seq!['\n'] + lines.last()
    }
}

/// The whole wrapped message body: each line bordered, all joined by newlines.
pub open spec fn spec_wrap_message(s: Seq<char>, width: int) -> Seq<char> {
    joined(wrapped_lines(s, width).map_values(|l: Seq<char>| bordered(l, width)))
}

/// Appending one more line to a join adds a newline separator unless the
/// join was empty so far.
pub proof fn lemma_joined_push(lines: Seq<Seq<char>>, x: Seq<char>)
    ensures
        joined(lines.push(x)) == if lines.len() == 0 {
            x
        } else {
            joined(lines) + seq!['\n'] + x
        },
{
    assert(lines.push(x).drop_last() =~= lines);
    assert(lines.push(x).last() == x);
    if lines.len() == 0 {
        assert(lines.push(x)[0] == x);
    }
}

/// Decorates each wrapped line with the bar border and joins the lines
/// with newlines.
pub fn render_lines(lines: &Vec<String>, width: usize) -> (out: String)
    ensures
        out@ == joined(lines.deep_view().map_values(|l: Seq<char>| bordered(l, width as int))),
{
    let ghost decorated = lines.deep_view().map_values(
        |l: Seq<char>| bordered(l, width as int),
    );
    let mut out = String::new();
    let mut k: usize = 0;
    while k < lines.len()
        invariant
            k <= lines.len(),
            decorated == lines.deep_view().map_values(
                |l: Seq<char>| bordered(l, width as int),
            ),
            out@ == joined(decorated.take(k as int)),
        decreases lines.len() - k,
    {
        let ghost out0 = out@;
        if k > 0 {
            push_char(&mut out, '\n');
        }
        push_char(&mut out, '|');
        push_char(&mut out, ' ');
        let line = &lines[k];
        out.append(line.as_str());
        let line_chars = line.as_str().unicode_len();
        let ghost mid = out@;
        let mut p: usize = line_chars;
        while p < width
            invariant
                line_chars <= p,
                p <= width || p == line_chars,
                out@ == mid + spaces(p - line_chars),
            decreases width - p,
        {
            push_char(&mut out, ' ');
            proof {
                assert(spaces(p - line_chars).push(' ') =~= spaces(p + 1 - line_chars));
            }
            p = p + 1;
        }
        push_char(&mut out, ' ');
        push_char(&mut out, '|');
        proof {
            assert(out@ =~= out0 + (if k == 0 {
                Seq::<char>::empty()
            } else {
                seq!['\n']
            }) + bordered(lines.deep_view()[k as int], width as int));
            assert(decorated.take(k + 1).drop_last() =~= decorated.take(k as int));
            lemma_joined_push(decorated.take(k as int), decorated[k as int]);
            assert(decorated.take(k + 1) =~= decorated.take(k as int).push(
                decorated[k as int],
            ));
        }
        k = k + 1;
    }
    proof {
        assert(decorated.take(lines.deep_view().len() as int) =~= decorated);
    }
    out
}

/// The length of the first line of `s`: the number of characters before the
/// first newline, or all of `s` when it has none.
pub open spec fn first_line_len(s: Seq<char>) -> int
    decreases s.len(),
{
    if s.len() == 0 {
        0
    } else if s[0] == '\n' {
        0
    } else {
        1 + first_line_len(s.subrange(1, s.len() as int))
    }
}

/// `n` dashes, clamped to none when `n` is not positive (the empty-body
/// border must not underflow).
pub open spec fn dashes(n: int) -> Seq<char> {
    Seq::new(if n < 0 { 0nat } else { n as nat }, |i: int| '-')
}

/// The character length of the first line as `str::lines` reads it: the run
/// before the first newline, without the carriage return of a `"\r\n"`
/// ending (a carriage return not followed by a newline is kept).
pub open spec fn first_line_content_len(s: Seq<char>) -> int {
    let n = first_line_len(s);
    if n < s.len() && n > 0 && s[n - 1] == '\r' {
        n - 1
    } else {
        n
    }
}

/// The top border of the bubble: one space, then two fewer dashes than the
/// first wrapped-and-bordered line is long (clamped at zero for an empty
/// body).
pub open spec fn spec_border(wrapped: Seq<char>) -> Seq<char> {
    seq![' '] + dashes(first_line_content_len(wrapped) - 2)
}

/// `first_line_len` is exactly the position of the first newline, or the
/// whole length when there is none.
pub proof fn lemma_first_line_len_at(s: Seq<char>, i: int)
    requires
        0 <= i <= s.len(),
        forall|j: int| 0 <= j < i ==> s[j] != '\n',
        i == s.len() || s[i] == '\n',
    ensures
        first_line_len(s) == i,
    decreases i,
{
    if i == 0 {
    } else {
        let tail = s.subrange(1, s.len() as int);
        assert(forall|j: int| 0 <= j < i - 1 ==> tail[j] == s[j + 1]);
        lemma_first_line_len_at(tail, i - 1);
    }
}

/// Builds the top border for an already wrapped-and-bordered body.
pub fn border_for(wrapped: &str) -> (r: String)
    ensures
        r@ == spec_border(wrapped@),
{
    let n = wrapped.unicode_len();
    let mut i: usize = 0;
    while i < n && wrapped.get_char(i) != '\n'
        invariant
            n as nat == wrapped@.len(),
            i <= n,
            forall|j: int| 0 <= j < i ==> wrapped@[j] != '\n',
        decreases n - i,
    {
        i = i + 1;
    }
    proof {
        lemma_first_line_len_at(wrapped@, i as int);
    }
    let first_line = if i < n && i >= 1 && wrapped.get_char(i - 1) == '\r' {
        i - 1
    } else {
        i
    };
    proof {
        assert(first_line as int == first_line_content_len(wrapped@));
    }
    let mut r = String::new();
    push_char(&mut r, ' ');
    proof {
        assert(r@ =~= seq![' '] + dashes(0));
    }
    if first_line >= 2 {
        let m = first_line - 2;
        let mut k: usize = 0;
        while k < m
            invariant
                k <= m,
                r@ == seq![' '] + dashes(k as int),
            decreases m - k,
        {
            push_char(&mut r, '-');
            proof {
                assert((seq![' '] + dashes(k as int)).push('-') =~= seq![' '] + dashes(
                    k + 1,
                ));
            }
            k = k + 1;
        }
    }
    r
}

/// A well-formed word: non-empty and free of whitespace.
pub open spec fn word_ok(w: Seq<char>) -> bool {
    w.len() > 0 && (forall|j: int| 0 <= j < w.len() ==> !is_wspace(w[j]))
}

/// The length of the words joined with single spaces (zero for no words).
pub open spec fn joined_len(ws: Seq<Seq<char>>) -> int
    decreases ws.len(),
{
    if ws.len() == 0 {
        0
    } else if ws.len() == 1 {
        ws[0].len() as int
    } else {
        joined_len(ws.drop_last()) + 1 + ws.last().len()
    }
}

/// Appending one more word to a join adds its length plus one separator,
/// unless the join was empty so far.
pub proof fn lemma_joined_len_push(ws: Seq<Seq<char>>, w: Seq<char>)
    ensures
        joined_len(ws.push(w)) == if ws.len() == 0 {
            w.len() as int
        } else {
            joined_len(ws) + 1 + w.len()
        },
{
    assert(ws.push(w).drop_last() =~= ws);
    assert(ws.push(w).last() == w);
    if ws.len() == 0 {
        assert(ws.push(w)[0] == w);
    }
}

/// The joined length is never negative.
pub proof fn lemma_joined_len_nonneg(ws: Seq<Seq<char>>)
    ensures
        joined_len(ws) >= 0,
    decreases ws.len(),
{
    if ws.len() > 1 {
        lemma_joined_len_nonneg(ws.drop_last());
    }
}

/// With at least one word, none of them empty, the joined length is positive.
pub proof fn lemma_joined_len_pos(ws: Seq<Seq<char>>)
    requires
        ws.len() > 0,
        forall|i: int| 0 <= i < ws.len() ==> #[trigger] ws[i].len() > 0,
    ensures
        joined_len(ws) >= 1,
{
    if ws.len() > 1 {
        lemma_joined_len_nonneg(ws.drop_last());
    }
}

/// The words of a message, joined with single spaces, are never longer than
/// the message itself: every separator in the message is at least one
/// character wide.
pub proof fn lemma_split_state_len(s: Seq<char>)
    ensures
        joined_len(close_state(split_state(s))) + (if split_state(s).1.len() == 0
            && split_state(s).0.len() > 0 {
            1int
        } else {
            0int
        }) <= s.len(),
    decreases s.len(),
{
    if s.len() == 0 {
    } else {
        let s0 = s.drop_last();
        let c = s.last();
        lemma_split_state_len(s0);
        let st0 = split_state(s0);
        if is_wspace(c) {
            if st0.1.len() > 0 {
                assert(close_state(split_state(s)) == close_state(st0));
            }
        } else {
            if st0.1.len() == 0 {
                lemma_joined_len_push(st0.0, st0.1.push(c));
                assert(st0.1.push(c).len() == 1);
            } else {
                lemma_joined_len_push(st0.0, st0.1);
                lemma_joined_len_push(st0.0, st0.1.push(c));
            }
        }
    }
}

/// Every word the splitter produces is non-empty and free of whitespace.
pub proof fn lemma_split_state_wf(s: Seq<char>)
    ensures
        forall|i: int|
            0 <= i < split_state(s).0.len() ==> word_ok(#[trigger] split_state(s).0[i]),
        forall|j: int|
            0 <= j < split_state(s).1.len() ==> !is_wspace(#[trigger] split_state(s).1[j]),
    decreases s.len(),
{
    if s.len() > 0 {
        lemma_split_state_wf(s.drop_last());
        let st0 = split_state(s.drop_last());
        let c = s.last();
        if is_wspace(c) && st0.1.len() > 0 {
            assert(word_ok(st0.1));
        }
    }
}

/// Every word of `words_of` is non-empty and free of whitespace.
pub proof fn lemma_words_wf(s: Seq<char>)
    ensures
        forall|i: int| 0 <= i < words_of(s).len() ==> word_ok(#[trigger] words_of(s)[i]),
{
    lemma_split_state_wf(s);
    let st = split_state(s);
    if st.1.len() > 0 {
        assert(word_ok(st.1));
    }
}

/// The joined length of a message's words is bounded by the message length.
pub proof fn lemma_words_fit(s: Seq<char>)
    ensures
        joined_len(words_of(s)) <= s.len(),
{
    lemma_split_state_len(s);
}

/// Words whose joined length fits within the width all land on a single
/// still-open line: the greedy wrapper closes nothing.
pub proof fn lemma_wrap_state_fits(ws: Seq<Seq<char>>, width: int)
    requires
        forall|i: int| 0 <= i < ws.len() ==> #[trigger] ws[i].len() > 0,
        joined_len(ws) <= width,
    ensures
        wrap_state(ws, width).0.len() == 0,
        wrap_state(ws, width).1.len() == joined_len(ws),
    decreases ws.len(),
{
    if ws.len() == 0 {
    } else if ws.len() == 1 {
        assert(wrap_state(ws, width) == wrap_step(
            wrap_state(ws.drop_last(), width),
            ws.last(),
            width,
        ));
        assert(ws.last() == ws[0]);
    } else {
        let ws0 = ws.drop_last();
        let w = ws.last();
        assert(forall|i: int| 0 <= i < ws0.len() ==> ws0[i] == #[trigger] ws[i]);
        lemma_joined_len_nonneg(ws0);
        lemma_wrap_state_fits(ws0, width);
        lemma_joined_len_pos(ws0);
    }
}

/// A message that fits within one wrap width yields at most one wrapped
/// line: exactly one when it contains a word, none when it is empty or all
/// whitespace.
pub proof fn lemma_short_message_single_line(msg: Seq<char>, width: int)
    requires
        msg.len() <= width,
    ensures
        wrapped_lines(msg, width).len() == (if words_of(msg).len() == 0 {
            0int
        } else {
            1int
        }),
{
    lemma_words_fit(msg);
    lemma_words_wf(msg);
    let ws = words_of(msg);
    if ws.len() > 0 {
        assert(forall|i: int| 0 <= i < ws.len() ==> #[trigger] ws[i].len() > 0);
        lemma_wrap_state_fits(ws, width);
        lemma_joined_len_pos(ws);
    }
}

/// An empty message wraps to an empty body, and the border degenerates to a
/// single space with the dash count clamped at zero.
pub proof fn lemma_empty_message(width: int)
    ensures
        words_of(Seq::<char>::empty()).len() == 0,
        wrapped_lines(Seq::<char>::empty(), width).len() == 0,
        spec_wrap_message(Seq::<char>::empty(), width) == Seq::<char>::empty(),
        spec_border(Seq::<char>::empty()) == seq![' '],
{
    assert(wrapped_lines(Seq::<char>::empty(), width).map_values(
        |l: Seq<char>| bordered(l, width),
    ) =~= Seq::<Seq<char>>::empty());
    assert(seq![' '] + dashes(-2) =~= seq![' ']);
}

/// A message that is a single word longer than the wrap width keeps that
/// word alone on its own line, unsplit and unpadded, and the first line of
/// the wrapped body is exactly that word's full bar-bordered line.
pub proof fn lemma_long_word_own_line(msg: Seq<char>, w: Seq<char>, width: int)
    requires
        words_of(msg) == seq![w],
        w.len() > width,
    ensures
        wrapped_lines(msg, width) == seq![w],
        spec_wrap_message(msg, width) == bordered(w, width),
        bordered(w, width).len() == w.len() + 4,
        first_line_len(spec_wrap_message(msg, width)) == w.len() + 4,
        first_line_content_len(spec_wrap_message(msg, width)) == w.len() + 4,
{
    lemma_words_wf(msg);
    assert(word_ok(w)) by {
        assert(words_of(msg)[0] == w);
    }
    let ws = seq![w];
    assert(ws.drop_last() =~= Seq::<Seq<char>>::empty());
    assert(ws.last() == w);
    assert(wrap_state(Seq::<Seq<char>>::empty(), width) == (
        Seq::<Seq<char>>::empty(),
        Seq::<char>::empty(),
    ));
    assert(wrap_state(ws, width) == wrap_step(wrap_state(ws.drop_last(), width), w, width));
    assert(wrap_state(ws, width) == wrap_step((
        Seq::<Seq<char>>::empty(),
        Seq::<char>::empty(),
    ), w, width));
    assert(wrapped_lines(msg, width) =~= seq![w]);
    let b = bordered(w, width);
    assert(spaces(width - w.len()).len() == 0);
    assert(b.len() == w.len() + 4);
    assert(wrapped_lines(msg, width).map_values(|l: Seq<char>| bordered(l, width)) =~= seq![b]);
    assert(spec_wrap_message(msg, width) == b);
    assert(forall|j: int| 0 <= j < b.len() ==> #[trigger] b[j] != '\n') by {
        assert(b[0] == '|' && b[1] == ' ');
        assert(forall|j: int| 2 <= j < 2 + w.len() ==> b[j] == w[j - 2] && !is_wspace(w[j - 2]));
        assert(b[b.len() - 2] == ' ' && b[b.len() - 1] == '|');
    }
    lemma_first_line_len_at(b, b.len() as int);
}

} // verus!
