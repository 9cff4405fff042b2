//! Word wrapping of text to a width in bytes.

use vstd::prelude::*;
use crate::text::{
    chars_of, char_is_white_space, char_width, is_white_space, join_seqs, join_strings,
    string_from_chars, utf8_len, utf8_width, views,
};

verus! {

/// A line without the `'\r'` that ends it, if any.
pub open spec fn strip_cr(line: Seq<char>) -> Seq<char> {
    if line.len() > 0 && line.last() == '\r' {
        line.drop_last()
    } else {
        line
    }
}

/// The lines of `s[i..]` as `str::lines` yields them, `cur` being the text
/// of the current line read so far: a line ends at `'\n'` (and loses one
/// `'\r'` before it); the last line needs no `'\n'` and is dropped when
/// empty.
pub open spec fn lines_from(s: Seq<char>, i: int, cur: Seq<char>) -> Seq<Seq<char>>
    decreases s.len() - i,
{
    if i < 0 || i >= s.len() {
        if cur.len() > 0 {
            seq![cur]
        } else {
            Seq::empty()
        }
    } else if s[i] == '\n' {
        seq![strip_cr(cur)] + lines_from(s, i + 1, Seq::empty())
    } else {
        lines_from(s, i + 1, cur.push(s[i]))
    }
}

/// The lines of `s` (`str::lines`).
pub open spec fn lines_of(s: Seq<char>) -> Seq<Seq<char>> {
    lines_from(s, 0, Seq::empty())
}

/// The words of `s[i..]` as `str::split_whitespace` yields them, `cur`
/// being the word read so far.
pub open spec fn words_from(s: Seq<char>, i: int, cur: Seq<char>) -> Seq<Seq<char>>
    decreases s.len() - i,
{
    if i < 0 || i >= s.len() {
        if cur.len() > 0 {
            seq![cur]
        } else {
            Seq::empty()
        }
    } else if is_white_space(s[i]) {
        (if cur.len() > 0 {
            seq![cur]
        } else {
            Seq::<Seq<char>>::empty()
        }) + words_from(s, i + 1, Seq::empty())
    } else {
        words_from(s, i + 1, cur.push(s[i]))
    }
}

/// The words of `s` (`str::split_whitespace`).
pub open spec fn words_of(s: Seq<char>) -> Seq<Seq<char>> {
    words_from(s, 0, Seq::empty())
}

/// The lines that words `k..` make when packed greedily into lines of
/// `width` bytes, `cur` being the line filled so far: a word goes on the
/// current line, after a space, unless the line is not empty and the
/// word and a space would take it over the width; then the line is closed
/// and the word starts the next one.
pub open spec fn pack(words: Seq<Seq<char>>, k: int, cur: Seq<char>, width: nat) -> Seq<Seq<char>>
    decreases words.len() - k,
{
    if k < 0 || k >= words.len() {
        if cur.len() > 0 {
            seq![cur]
        } else {
            Seq::empty()
        }
    } else {
        let w = words[k];
        if utf8_len(cur) + utf8_len(w) + 1 > width && cur.len() > 0 {
            seq![cur] + pack(words, k + 1, w, width)
        } else {
            pack(words, k + 1, if cur.len() > 0 { cur + " "@ + w } else { w }, width)
        }
    }
}

/// One line wrapped to `width` bytes: as it is when it fits, else its
/// words packed greedily.
pub open spec fn wrap_line(line: Seq<char>, width: nat) -> Seq<Seq<char>> {
    if utf8_len(line) <= width {
        seq![line]
    } else {
        pack(words_of(line), 0, Seq::empty(), width)
    }
}

/// The wrapped lines of `lines`, one after another.
pub open spec fn wrap_lines(lines: Seq<Seq<char>>, width: nat) -> Seq<Seq<char>>
    decreases lines.len(),
{
    if lines.len() == 0 {
        Seq::empty()
    } else {
        wrap_lines(lines.drop_last(), width) + wrap_line(lines.last(), width)
    }
}

/// `text` wrapped to `width` bytes: unchanged for width zero; otherwise
/// each of its lines wrapped, the results joined by `'\n'`.
pub open spec fn wrapped(text: Seq<char>, width: nat) -> Seq<char> {
    if width == 0 {
        text
    } else {
        join_seqs(wrap_lines(lines_of(text), width), "\n"@)
    }
}

/// The views of a list of character lists.
pub open spec fn char_views(v: Seq<Vec<char>>) -> Seq<Seq<char>> {
    v.map_values(|x: Vec<char>| x@)
}

/// The lines of the characters `v` (`str::lines`).
pub(crate) fn split_lines(v: &Vec<char>) -> (r: Vec<Vec<char>>)
    ensures
        char_views(r@) == lines_of(v@),
{
    let mut r: Vec<Vec<char>> = Vec::new();
    let mut cur: Vec<char> = Vec::new();
    let mut i: usize = 0;
    assert(char_views(r@) + lines_from(v@, 0, cur@) =~= lines_of(v@));
    while i < v.len()
        invariant
            i <= v.len(),
            char_views(r@) + lines_from(v@, i as int, cur@) == lines_of(v@),
        decreases v.len() - i,
    {
        let ghost before = char_views(r@);
        let ghost c0 = cur@;
        if v[i] == '\n' {
            let mut line = cur;
            if line.len() > 0 && line[line.len() - 1] == '\r' {
                line.pop();
            }
            assert(line@ == strip_cr(c0));
            r.push(line);
            cur = Vec::new();
            proof {
                assert(char_views(r@) =~= before.push(strip_cr(c0)));
                assert(before + lines_from(v@, i as int, c0) == before + (seq![strip_cr(c0)] + lines_from(
                    v@,
                    i + 1,
                    Seq::empty(),
                )));
                assert(before.push(strip_cr(c0)) + lines_from(v@, i + 1, cur@) =~= before + (seq![strip_cr(c0)]
                    + lines_from(v@, i + 1, Seq::empty())));
            }
        } else {
            cur.push(v[i]);
        }
        i += 1;
    }
    let ghost before = char_views(r@);
    if cur.len() > 0 {
        r.push(cur);
        assert(char_views(r@) =~= before + seq![cur@]);
    } else {
        assert(char_views(r@) =~= before + Seq::<Seq<char>>::empty());
    }
    r
}

/// The words of the characters `v` (`str::split_whitespace`).
fn split_words(v: &Vec<char>) -> (r: Vec<Vec<char>>)
    ensures
        char_views(r@) == words_of(v@),
{
    let mut r: Vec<Vec<char>> = Vec::new();
    let mut cur: Vec<char> = Vec::new();
    let mut i: usize = 0;
    assert(char_views(r@) + words_from(v@, 0, cur@) =~= words_of(v@));
    while i < v.len()
        invariant
            i <= v.len(),
            char_views(r@) + words_from(v@, i as int, cur@) == words_of(v@),
        decreases v.len() - i,
    {
        let ghost before = char_views(r@);
        let ghost c0 = cur@;
        if char_is_white_space(v[i]) {
            assert(words_from(v@, i as int, c0) == (if c0.len() > 0 {
                seq![c0]
            } else {
                Seq::<Seq<char>>::empty()
            }) + words_from(v@, i + 1, Seq::empty()));
            if cur.len() > 0 {
                r.push(cur);
                cur = Vec::new();
                proof {
                    assert(char_views(r@) =~= before.push(c0));
                    assert(before.push(c0) + words_from(v@, i + 1, cur@) =~= before + (seq![c0] + words_from(
                        v@,
                        i + 1,
                        Seq::empty(),
                    )));
                }
            } else {
                proof {
                    assert(cur@ =~= Seq::<char>::empty());
                    assert(Seq::<Seq<char>>::empty() + words_from(v@, i + 1, Seq::empty()) =~= words_from(
                        v@,
                        i + 1,
                        Seq::empty(),
                    ));
                }
            }
        } else {
            cur.push(v[i]);
        }
        i += 1;
    }
    let ghost before = char_views(r@);
    if cur.len() > 0 {
        r.push(cur);
        assert(char_views(r@) =~= before + seq![cur@]);
    } else {
        assert(char_views(r@) =~= before + Seq::<Seq<char>>::empty());
    }
    r
}

/// The length in bytes of the UTF-8 encoding of `v`.
pub(crate) fn byte_len(v: &Vec<char>) -> (n: u128)
    ensures
        n == utf8_len(v@),
        n <= 4 * v.len(),
{
    let mut n: u128 = 0;
    let mut i: usize = 0;
    while i < v.len()
        invariant
            i <= v.len(),
            n == utf8_len(v@.take(i as int)),
            n <= 4 * i,
        decreases v.len() - i,
    {
        assert(v@.take(i + 1).drop_last() =~= v@.take(i as int));
        n = n + char_width(v[i]) as u128;
        i += 1;
    }
    assert(v@.take(v.len() as int) =~= v@);
    n
}

/// The bytes of two sequences one after the other add up.
proof fn lemma_utf8_len_concat(a: Seq<char>, b: Seq<char>)
    ensures
        utf8_len(a + b) == utf8_len(a) + utf8_len(b),
    decreases b.len(),
{
    if b.len() == 0 {
        assert(a + b =~= a);
    } else {
        lemma_utf8_len_concat(a, b.drop_last());
        assert((a + b).drop_last() =~= a + b.drop_last());
    }
}

/// A character takes at most four bytes.
proof fn lemma_utf8_len_bound(a: Seq<char>)
    ensures
        utf8_len(a) <= 4 * a.len(),
    decreases a.len(),
{
    if a.len() > 0 {
        lemma_utf8_len_bound(a.drop_last());
    }
}

/// Appends the characters of `src` to `dst`.
fn append_chars(dst: &mut Vec<char>, src: &Vec<char>)
    ensures
        final(dst)@ == old(dst)@ + src@,
{
    let ghost start = dst@;
    let mut i: usize = 0;
    while i < src.len()
        invariant
            i <= src.len(),
            dst@ == start + src@.take(i as int),
        decreases src.len() - i,
    {
        dst.push(src[i]);
        assert(dst@ =~= start + src@.take(i + 1));
        i += 1;
    }
    assert(src@.take(src.len() as int) =~= src@);
}

/// The words packed greedily into lines of `width` bytes.
fn pack_words(words: &Vec<Vec<char>>, width: usize) -> (r: Vec<Vec<char>>)
    ensures
        char_views(r@) == pack(char_views(words@), 0, Seq::empty(), width as nat),
{
    let ghost ws = char_views(words@);
    let mut r: Vec<Vec<char>> = Vec::new();
    let mut cur: Vec<char> = Vec::new();
    let mut cur_bytes: u128 = 0;
    let mut k: usize = 0;
    assert(char_views(r@) + pack(ws, 0, cur@, width as nat) =~= pack(ws, 0, Seq::empty(), width as nat));
    while k < words.len()
        invariant
            ws == char_views(words@),
            k <= words.len(),
            cur_bytes == utf8_len(cur@),
            char_views(r@) + pack(ws, k as int, cur@, width as nat) == pack(ws, 0, Seq::empty(), width as nat),
        decreases words.len() - k,
    {
        let ghost before = char_views(r@);
        let ghost c0 = cur@;
        let w = &words[k];
        let wb = byte_len(w);
        proof {
            lemma_utf8_len_bound(c0);
            assert(ws[k as int] == w@);
            assert(c0.len() == cur.len());
            assert(cur_bytes <= 4 * (usize::MAX as int));
            assert(wb <= 4 * (usize::MAX as int));
        }
        if cur_bytes + wb + 1 > width as u128 && cur.len() > 0 {
            r.push(cur);
            cur = Vec::new();
            append_chars(&mut cur, w);
            cur_bytes = wb;
            proof {
                assert(cur@ =~= w@);
                assert(char_views(r@) =~= before.push(c0));
                assert(before.push(c0) + pack(ws, k + 1, cur@, width as nat) =~= before + (seq![c0] + pack(
                    ws,
                    k + 1,
                    w@,
                    width as nat,
                )));
            }
        } else {
            if cur.len() > 0 {
                cur.push(' ');
                cur_bytes = cur_bytes + 1;
                proof {
                    reveal_strlit(" ");
                    assert(cur@ =~= c0 + " "@);
                    lemma_utf8_len_concat(c0, " "@);
                    assert(" "@.drop_last() =~= Seq::<char>::empty());
                    assert(" "@.last() == ' ');
                    assert(utf8_len(Seq::<char>::empty()) == 0);
                    assert(utf8_len(" "@) == 1);
                    assert(cur_bytes == utf8_len(cur@));
                }
            } else {
                proof {
                    assert(c0 =~= Seq::<char>::empty());
                }
            }
            let ghost mid = cur@;
            append_chars(&mut cur, w);
            cur_bytes = cur_bytes + wb;
            proof {
                lemma_utf8_len_concat(mid, w@);
                if c0.len() > 0 {
                    assert(cur@ =~= c0 + " "@ + w@);
                } else {
                    assert(cur@ =~= w@);
                }
            }
        }
        k += 1;
    }
    let ghost before = char_views(r@);
    if cur.len() > 0 {
        r.push(cur);
        assert(char_views(r@) =~= before + seq![cur@]);
    } else {
        assert(char_views(r@) =~= before + Seq::<Seq<char>>::empty());
    }
    r
}

/// `text` word-wrapped to `width` bytes: each line that is longer is cut
/// between words, greedily, and the lines are joined by `'\n'`. A width of
/// zero leaves the text as it is.
pub fn wrap_text(text: &str, width: usize) -> (r: String)
    ensures
        r@ == wrapped(text@, width as nat),
{
    if width == 0 {
        return String::from_str(text);
    }
    let v = chars_of(text);
    let lines = split_lines(&v);
    let ghost ls = char_views(lines@);
    let mut out: Vec<String> = Vec::new();
    let mut i: usize = 0;
    while i < lines.len()
        invariant
            ls == char_views(lines@),
            ls == lines_of(v@),
            i <= lines.len(),
            views(out@) == wrap_lines(ls.take(i as int), width as nat),
        decreases lines.len() - i,
    {
        let ghost before = views(out@);
        let line = &lines[i];
        assert(ls.take(i + 1).drop_last() =~= ls.take(i as int));
        assert(ls[i as int] == line@);
        let lb = byte_len(line);
        if lb <= width as u128 {
            out.push(string_from_chars(line, 0, line.len()));
            proof {
                assert(line@.subrange(0, line@.len() as int) =~= line@);
                assert(views(out@) =~= before + seq![line@]);
            }
        } else {
            let words = split_words(line);
            let packed = pack_words(&words, width);
            let ghost ps = char_views(packed@);
            let mut j: usize = 0;
            while j < packed.len()
                invariant
                    ps == char_views(packed@),
                    j <= packed.len(),
                    views(out@) == before + ps.take(j as int),
                decreases packed.len() - j,
            {
                let ghost before_push = views(out@);
                out.push(string_from_chars(&packed[j], 0, packed[j].len()));
                proof {
                    assert(packed[j as int]@.subrange(0, packed[j as int]@.len() as int) =~= packed[j as int]@);
                    assert(ps[j as int] == packed[j as int]@);
                    assert(views(out@) =~= before_push.push(packed[j as int]@));
                    assert(views(out@) =~= before + ps.take(j + 1));
                }
                j += 1;
            }
            assert(ps.take(ps.len() as int) =~= ps);
        }
        i += 1;
    }
    assert(ls.take(ls.len() as int) =~= ls);
    join_strings(&out, "\n")
}

/// Packing closes only lines that fit the width or hold a single word.
proof fn lemma_pack_fits(words: Seq<Seq<char>>, k: int, cur: Seq<char>, width: nat)
    requires
        0 <= k <= words.len(),
        cur.len() == 0 || utf8_len(cur) <= width || words.contains(cur),
    ensures
        forall|i: int|
            0 <= i < pack(words, k, cur, width).len() ==> utf8_len(#[trigger] pack(words, k, cur, width)[i])
                <= width || words.contains(pack(words, k, cur, width)[i]),
    decreases words.len() - k,
{
    let r = pack(words, k, cur, width);
    if k < words.len() {
        let w = words[k];
        assert(words.contains(w));
        if utf8_len(cur) + utf8_len(w) + 1 > width && cur.len() > 0 {
            lemma_pack_fits(words, k + 1, w, width);
            let rest = pack(words, k + 1, w, width);
            assert forall|i: int| 0 <= i < r.len() implies utf8_len(#[trigger] r[i]) <= width || words.contains(r[i]) by {
                if i > 0 {
                    assert(r[i] == rest[i - 1]);
                }
            }
        } else {
            let next = if cur.len() > 0 { cur + " "@ + w } else { w };
            if cur.len() > 0 {
                reveal_strlit(" ");
                lemma_utf8_len_concat(cur, " "@);
                lemma_utf8_len_concat(cur + " "@, w);
                assert(" "@.drop_last() =~= Seq::<char>::empty());
                assert(" "@.last() == ' ');
                assert(utf8_len(Seq::<char>::empty()) == 0);
                assert(utf8_len(" "@) == 1);
            }
            lemma_pack_fits(words, k + 1, next, width);
            assert(r == pack(words, k + 1, next, width));
        }
    } else {
        if cur.len() > 0 {
            assert(r =~= seq![cur]);
        }
    }
}

/// Wrapping keeps lines within the width: every line that wrapping a line
/// gives takes at most `width` bytes, unless it is a single word of that
/// line that is longer than the width by itself.
pub proof fn law_wrapped_lines_fit(line: Seq<char>, width: nat)
    ensures
        forall|i: int|
            0 <= i < wrap_line(line, width).len() ==> utf8_len(#[trigger] wrap_line(line, width)[i]) <= width
                || words_of(line).contains(wrap_line(line, width)[i]),
{
    if utf8_len(line) > width {
        lemma_pack_fits(words_of(line), 0, Seq::empty(), width);
    }
}

/// Joining `a` in front of `rest`: `a` alone, or `a`, the separator and
/// the rest joined.
proof fn lemma_join_prepend(a: Seq<char>, rest: Seq<Seq<char>>, sep: Seq<char>)
    ensures
        join_seqs(seq![a] + rest, sep) == if rest.len() == 0 {
            a
        } else {
            a + sep + join_seqs(rest, sep)
        },
    decreases rest.len(),
{
    let all = seq![a] + rest;
    assert(join_seqs(seq![a], sep) == a) by {
        assert(seq![a].len() == 1);
        assert(seq![a][0] == a);
    }
    if rest.len() == 0 {
        assert(all =~= seq![a]);
    } else if rest.len() == 1 {
        assert(all.drop_last() =~= seq![a]);
        assert(all.len() == 2 && all.last() == rest[0]);
        assert(join_seqs(rest, sep) == rest[0]);
    } else {
        let r = rest.drop_last();
        assert(all.drop_last() =~= seq![a] + r);
        assert(all.len() > 2 && all.last() == rest.last());
        lemma_join_prepend(a, r, sep);
        assert(a + sep + join_seqs(r, sep) + sep + rest.last() =~= a + sep + (join_seqs(r, sep) + sep + rest.last()));
    }
}

/// Every word of `s[i..]` is non-empty.
proof fn lemma_words_nonempty(s: Seq<char>, i: int, cur: Seq<char>)
    ensures
        forall|j: int| 0 <= j < words_from(s, i, cur).len() ==> (#[trigger] words_from(s, i, cur)[j]).len() > 0,
    decreases s.len() - i,
{
    if i < 0 || i >= s.len() {
        if cur.len() > 0 {
            assert(words_from(s, i, cur) =~= seq![cur]);
        }
    } else if is_white_space(s[i]) {
        lemma_words_nonempty(s, i + 1, Seq::empty());
        let head = if cur.len() > 0 { seq![cur] } else { Seq::<Seq<char>>::empty() };
        let rest = words_from(s, i + 1, Seq::empty());
        assert(words_from(s, i, cur) == head + rest);
        assert forall|j: int| 0 <= j < (head + rest).len() implies (#[trigger] (head + rest)[j]).len() > 0 by {
            if j >= head.len() {
                assert((head + rest)[j] == rest[j - head.len()]);
            }
        }
    } else {
        lemma_words_nonempty(s, i + 1, cur.push(s[i]));
        assert(words_from(s, i, cur) == words_from(s, i + 1, cur.push(s[i])));
    }
}

/// Packing keeps the words in order: the packed lines from word `k` on,
/// joined by spaces, are the line filled so far followed by the remaining
/// words, all joined by spaces.
proof fn lemma_pack_keeps_words(words: Seq<Seq<char>>, k: int, cur: Seq<char>, width: nat)
    requires
        0 <= k <= words.len(),
        forall|j: int| 0 <= j < words.len() ==> (#[trigger] words[j]).len() > 0,
    ensures
        join_seqs(pack(words, k, cur, width), " "@) == if cur.len() > 0 {
            if k < words.len() {
                cur + " "@ + join_seqs(words.subrange(k, words.len() as int), " "@)
            } else {
                cur
            }
        } else {
            join_seqs(words.subrange(k, words.len() as int), " "@)
        },
    decreases words.len() - k,
{
    let sp = " "@;
    let tail = words.subrange(k, words.len() as int);
    if k >= words.len() {
        assert(tail =~= Seq::<Seq<char>>::empty());
        if cur.len() > 0 {
            assert(pack(words, k, cur, width) =~= seq![cur]);
        }
    } else {
        let w = words[k];
        let next = words.subrange(k + 1, words.len() as int);
        assert(tail =~= seq![w] + next);
        lemma_join_prepend(w, next, sp);
        let joined_tail = join_seqs(tail, sp);
        if utf8_len(cur) + utf8_len(w) + 1 > width && cur.len() > 0 {
            lemma_pack_keeps_words(words, k + 1, w, width);
            let p = pack(words, k + 1, w, width);
            assert(join_seqs(p, sp) == joined_tail);
            assert(joined_tail.len() > 0) by {
                if next.len() > 0 {
                    assert(joined_tail == w + sp + join_seqs(next, sp));
                }
            }
            assert(p.len() > 0);
            lemma_join_prepend(cur, p, sp);
        } else {
            let c2 = if cur.len() > 0 { cur + sp + w } else { w };
            lemma_pack_keeps_words(words, k + 1, c2, width);
            if cur.len() > 0 {
                if next.len() > 0 {
                    assert(cur + sp + w + sp + join_seqs(next, sp) =~= cur + sp + (w + sp + join_seqs(next, sp)));
                }
            }
        }
    }
}

/// Wrapping keeps the words of a line, in their order: the lines that
/// wrapping a line gives, joined by spaces, are the line itself when it
/// fits, and otherwise its words joined by single spaces.
pub proof fn law_wrapping_keeps_words(line: Seq<char>, width: nat)
    ensures
        join_seqs(wrap_line(line, width), " "@) == if utf8_len(line) <= width {
            line
        } else {
            join_seqs(words_of(line), " "@)
        },
{
    if utf8_len(line) <= width {
        assert(wrap_line(line, width) =~= seq![line]);
    } else {
        let ws = words_of(line);
        lemma_words_nonempty(line, 0, Seq::empty());
        lemma_pack_keeps_words(ws, 0, Seq::empty(), width);
        assert(ws.subrange(0, ws.len() as int) =~= ws);
    }
}

/// Whether `s` begins with `p`.
pub open spec fn begins_with(s: Seq<char>, p: Seq<char>) -> bool {
    p.len() <= s.len() && s.take(p.len() as int) == p
}

/// The first line that packing gives from a non-empty line `cur` begins
/// with it: it is `cur`, or `cur` and a space then more words.
proof fn lemma_pack_first_line(words: Seq<Seq<char>>, k: int, cur: Seq<char>, width: nat)
    requires
        0 <= k <= words.len(),
        cur.len() > 0,
    ensures
        pack(words, k, cur, width).len() > 0,
        pack(words, k, cur, width)[0] == cur || begins_with(pack(words, k, cur, width)[0], cur + " "@),
    decreases words.len() - k,
{
    let r = pack(words, k, cur, width);
    if k >= words.len() {
        assert(r =~= seq![cur]);
    } else {
        let w = words[k];
        if utf8_len(cur) + utf8_len(w) + 1 > width && cur.len() > 0 {
            assert(r[0] == cur);
        } else {
            let next = cur + " "@ + w;
            lemma_pack_first_line(words, k + 1, next, width);
            let l = r[0];
            let p = cur + " "@;
            assert(next.take(p.len() as int) =~= p);
            if l == next {
            } else {
                assert(l.take(next.len() as int) == next);
                assert(l.take(p.len() as int) =~= next.take(p.len() as int));
            }
        }
    }
}

/// Whether the line `b` that follows `a` begins with a word of `words`
/// that, after a space, would not have fitted on `a` within `width` bytes.
pub open spec fn next_word_overflows(a: Seq<char>, b: Seq<char>, words: Seq<Seq<char>>, width: nat) -> bool {
    exists|j: int|
        0 <= j < words.len() && (b == words[j] || begins_with(b, #[trigger] words[j] + " "@))
            && utf8_len(a) + 1 + utf8_len(words[j]) > width
}

/// Packing is greedy: a line is closed only when the next word, after a
/// space, would take it over the width.
proof fn lemma_pack_greedy(words: Seq<Seq<char>>, k: int, cur: Seq<char>, width: nat)
    requires
        0 <= k <= words.len(),
        forall|j: int| 0 <= j < words.len() ==> (#[trigger] words[j]).len() > 0,
    ensures
        forall|i: int| 0 <= i < pack(words, k, cur, width).len() - 1 ==> #[trigger] next_word_overflows(
            pack(words, k, cur, width)[i],
            pack(words, k, cur, width)[i + 1],
            words,
            width,
        ),
    decreases words.len() - k,
{
    let r = pack(words, k, cur, width);
    if k >= words.len() {
        if cur.len() > 0 {
            assert(r =~= seq![cur]);
        }
    } else {
        let w = words[k];
        if utf8_len(cur) + utf8_len(w) + 1 > width && cur.len() > 0 {
            let rest = pack(words, k + 1, w, width);
            lemma_pack_greedy(words, k + 1, w, width);
            lemma_pack_first_line(words, k + 1, w, width);
            assert(r == seq![cur] + rest);
            assert forall|i: int| 0 <= i < r.len() - 1 implies #[trigger] next_word_overflows(r[i], r[i + 1], words, width) by {
                if i == 0 {
                    assert(r[1] == rest[0]);
                    assert(r[0] == cur);
                    assert(r[1] == words[k] || begins_with(r[1], words[k] + " "@));
                } else {
                    assert(r[i] == rest[i - 1]);
                    assert(r[i + 1] == rest[i]);
                    assert(next_word_overflows(rest[i - 1], rest[(i - 1) + 1], words, width));
                }
            }
        } else {
            let next = if cur.len() > 0 { cur + " "@ + w } else { w };
            lemma_pack_greedy(words, k + 1, next, width);
            assert(r == pack(words, k + 1, next, width));
        }
    }
}

/// Wrapping is greedy: of two consecutive lines that wrapping a too long
/// line gives, the second begins with a word of that line which, after a
/// space, would not have fitted on the first within the width.
pub proof fn law_wrapping_is_greedy(line: Seq<char>, width: nat)
    requires
        utf8_len(line) > width,
    ensures
        forall|i: int| 0 <= i < wrap_line(line, width).len() - 1 ==> #[trigger] next_word_overflows(
            wrap_line(line, width)[i],
            wrap_line(line, width)[i + 1],
            words_of(line),
            width,
        ),
{
    lemma_words_nonempty(line, 0, Seq::empty());
    let ws = words_of(line);
    assert(forall|j: int| 0 <= j < ws.len() ==> (#[trigger] ws[j]).len() > 0);
    lemma_pack_greedy(ws, 0, Seq::empty(), width);
}

} // verus!
