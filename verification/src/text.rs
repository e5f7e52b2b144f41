//! Character sequences, their UTF-8 byte lengths, and line splitting.
use vstd::prelude::*;

verus! {

/// The most bytes that a text of this library holds: half of `isize::MAX`.
/// A `String` that grows by at most doubling its capacity then never asks
/// for more than `isize::MAX` bytes, the size beyond which allocation panics.
pub open spec fn max_bytes() -> int {
    isize::MAX / 2
}

/// Number of bytes that `c` occupies in UTF-8.
pub open spec fn width(c: char) -> nat {
    let u = c as u32;
    if u <= 0x7F {
        1
    } else if u <= 0x7FF {
        2
    } else if u <= 0xFFFF {
        3
    } else {
        4
    }
}

/// Number of bytes that `s` occupies in UTF-8.
pub open spec fn byte_len(s: Seq<char>) -> nat
    decreases s.len(),
{
    if s.len() == 0 {
        0
    } else {
        byte_len(s.drop_last()) + width(s.last())
    }
}

/// Byte lengths add up over concatenation.
pub proof fn lemma_byte_len_concat(a: Seq<char>, b: Seq<char>)
    ensures
        byte_len(a + b) == byte_len(a) + byte_len(b),
    decreases b.len(),
{
    if b.len() == 0 {
        assert(a + b =~= a);
    } else {
        lemma_byte_len_concat(a, b.drop_last());
        assert((a + b).drop_last() =~= a + b.drop_last());
    }
}

/// The byte length of a one-character sequence is that character's width.
pub proof fn lemma_byte_len_single(c: char)
    ensures
        byte_len(seq![c]) == width(c),
{
    assert(seq![c].drop_last() =~= Seq::<char>::empty());
    assert(byte_len(Seq::<char>::empty()) == 0);
}

/// Width of a char computed at run time.
pub fn char_width(c: char) -> (w: usize)
    ensures
        w == width(c),
        1 <= w <= 4,
{
    let u = c as u32;
    if u <= 0x7F {
        1
    } else if u <= 0x7FF {
        2
    } else if u <= 0xFFFF {
        3
    } else {
        4
    }
}


/// Each character occupies 1 to 4 bytes.
pub proof fn lemma_width_range(c: char)
    ensures
        1 <= width(c) <= 4,
{
}

/// The byte length agrees with the length of vstd's UTF-8 encoding.
pub proof fn lemma_byte_len_is_utf8_len(s: Seq<char>)
    ensures
        byte_len(s) == vstd::utf8::encode_utf8(s).len(),
    decreases s.len(),
{
    if s.len() > 0 {
        vstd::utf8::char_is_scalar(s[0]);
        lemma_byte_len_is_utf8_len(s.drop_first());
        lemma_byte_len_concat(seq![s[0]], s.drop_first());
        lemma_byte_len_single(s[0]);
        assert(seq![s[0]] + s.drop_first() =~= s);
        assert(vstd::utf8::encode_scalar(s[0] as u32).len() == width(s[0]));
    }
}

/// Appending one character to a prefix adds its width.
pub proof fn lemma_byte_len_take_step(s: Seq<char>, k: int)
    requires
        0 <= k < s.len(),
    ensures
        byte_len(s.take(k + 1)) == byte_len(s.take(k)) + width(s[k]),
{
    assert(s.take(k + 1).drop_last() =~= s.take(k));
}

/// Longer prefixes occupy strictly more bytes.
pub proof fn lemma_byte_len_take_mono(s: Seq<char>, i: int, j: int)
    requires
        0 <= i < j <= s.len(),
    ensures
        byte_len(s.take(i)) < byte_len(s.take(j)),
    decreases j - i,
{
    lemma_byte_len_take_step(s, j - 1);
    lemma_width_range(s[j - 1]);
    if i < j - 1 {
        lemma_byte_len_take_mono(s, i, j - 1);
    }
}

/// A prefix never occupies more bytes than the whole sequence.
pub proof fn lemma_byte_len_take_le(s: Seq<char>, i: int)
    requires
        0 <= i <= s.len(),
    ensures
        byte_len(s.take(i)) <= byte_len(s),
{
    assert(s.take(s.len() as int) =~= s);
    if i < s.len() {
        lemma_byte_len_take_mono(s, i, s.len() as int);
    }
}

/// `b` is the byte offset of the start of some character of `s`, or of its end.
pub open spec fn is_boundary(s: Seq<char>, b: int) -> bool {
    exists|k: int| 0 <= k <= s.len() && #[trigger] byte_len(s.take(k)) == b
}

/// The number of characters of `s` that lie before byte offset `b`.
pub open spec fn char_index(s: Seq<char>, b: int) -> int
    recommends
        is_boundary(s, b),
{
    choose|k: int| 0 <= k <= s.len() && #[trigger] byte_len(s.take(k)) == b
}

/// The character index of a boundary is the one prefix with that byte length.
pub proof fn lemma_char_index_unique(s: Seq<char>, k: int)
    requires
        0 <= k <= s.len(),
    ensures
        is_boundary(s, byte_len(s.take(k)) as int),
        char_index(s, byte_len(s.take(k)) as int) == k,
{
    let b = byte_len(s.take(k)) as int;
    assert(0 <= k <= s.len() && byte_len(s.take(k)) == b);
    let j = char_index(s, b);
    if j < k {
        lemma_byte_len_take_mono(s, j, k);
    } else if k < j {
        lemma_byte_len_take_mono(s, k, j);
    }
}

/// A sequence occupies its prefix's bytes followed by its suffix's bytes.
pub proof fn lemma_byte_len_split(s: Seq<char>, k: int)
    requires
        0 <= k <= s.len(),
    ensures
        byte_len(s) == byte_len(s.take(k)) + byte_len(s.skip(k)),
{
    assert(s =~= s.take(k) + s.skip(k));
    lemma_byte_len_concat(s.take(k), s.skip(k));
}

/// The character index of byte offset `col` in `cs`.
pub fn char_index_of(cs: &Vec<char>, col: usize) -> (k: usize)
    requires
        is_boundary(cs@, col as int),
    ensures
        k == char_index(cs@, col as int),
        k <= cs@.len(),
        byte_len(cs@.take(k as int)) == col,
{
    let ghost target = char_index(cs@, col as int);
    proof {
        lemma_char_index_unique(cs@, target);
    }
    let mut i: usize = 0;
    let mut acc: usize = 0;
    assert(cs@.take(0) =~= Seq::<char>::empty());
    while acc < col
        invariant
            0 <= target <= cs@.len(),
            byte_len(cs@.take(target)) == col,
            char_index(cs@, col as int) == target,
            i <= target,
            acc == byte_len(cs@.take(i as int)),
            acc <= col,
        decreases col - acc,
    {
        proof {
            assert(i < target);
            lemma_byte_len_take_step(cs@, i as int);
            if i + 1 < target {
                lemma_byte_len_take_mono(cs@, i + 1, target);
            }
        }
        assert(i < cs.len());
        let w = char_width(cs[i]);
        acc = acc + w;
        i = i + 1;
    }
    proof {
        if i < target {
            lemma_byte_len_take_mono(cs@, i as int, target);
        }
    }
    i
}

/// Offset 0 is the boundary before the first character.
pub proof fn lemma_zero_boundary(s: Seq<char>)
    ensures
        is_boundary(s, 0),
        char_index(s, 0) == 0,
{
    assert(s.take(0) =~= Seq::<char>::empty());
    lemma_char_index_unique(s, 0);
}

/// The end of a sequence is a boundary, after all its characters.
pub proof fn lemma_end_boundary(s: Seq<char>)
    ensures
        is_boundary(s, byte_len(s) as int),
        char_index(s, byte_len(s) as int) == s.len(),
{
    assert(s.take(s.len() as int) =~= s);
    lemma_char_index_unique(s, s.len() as int);
}

/// A sequence occupies at most four bytes per character.
pub proof fn lemma_byte_len_bound(s: Seq<char>)
    ensures
        byte_len(s) <= 4 * s.len(),
    decreases s.len(),
{
    if s.len() > 0 {
        lemma_byte_len_bound(s.drop_last());
        lemma_width_range(s.last());
    }
}

/// A sequence occupies at least one byte per character.
pub proof fn lemma_len_le_byte_len(s: Seq<char>)
    ensures
        s.len() <= byte_len(s),
    decreases s.len(),
{
    if s.len() > 0 {
        lemma_len_le_byte_len(s.drop_last());
        lemma_width_range(s.last());
    }
}

/// Each line, and each pair of adjacent lines, fits within the joined text.
pub proof fn lemma_join_bounds(ls: Seq<Seq<char>>, i: int)
    requires
        0 <= i < ls.len(),
    ensures
        byte_len(ls[i]) <= byte_len(join_lines(ls)),
        i >= 1 ==> byte_len(ls[i - 1]) + byte_len(ls[i]) <= byte_len(join_lines(ls)),
    decreases ls.len(),
{
    if ls.len() > 1 {
        let init = ls.drop_last();
        lemma_byte_len_concat(join_lines(init) + seq!['\n'], ls.last());
        lemma_byte_len_concat(join_lines(init), seq!['\n']);
        if i < ls.len() - 1 {
            lemma_join_bounds(init, i);
            assert(init[i] == ls[i]);
            if i >= 1 {
                assert(init[i - 1] == ls[i - 1]);
            }
        } else {
            lemma_join_bounds(init, i - 1);
            assert(init[i - 1] == ls[i - 1]);
        }
    }
}

/// Replacing one line changes the joined text's length by the difference.
pub proof fn lemma_join_update(ls: Seq<Seq<char>>, i: int, x: Seq<char>)
    requires
        0 <= i < ls.len(),
    ensures
        byte_len(join_lines(ls.update(i, x))) + byte_len(ls[i]) == byte_len(join_lines(ls))
            + byte_len(x),
    decreases ls.len(),
{
    let u = ls.update(i, x);
    if ls.len() > 1 {
        let init = ls.drop_last();
        lemma_byte_len_concat(join_lines(init) + seq!['\n'], ls.last());
        lemma_byte_len_concat(join_lines(init), seq!['\n']);
        lemma_byte_len_concat(join_lines(u.drop_last()) + seq!['\n'], u.last());
        lemma_byte_len_concat(join_lines(u.drop_last()), seq!['\n']);
        if i < ls.len() - 1 {
            lemma_join_update(init, i, x);
            assert(u.drop_last() =~= init.update(i, x));
        } else {
            assert(u.drop_last() =~= init);
        }
    }
}

/// Breaking line `i` into `a` and `b` adds one byte (the new `'\n'`).
pub proof fn lemma_join_break(ls: Seq<Seq<char>>, i: int, a: Seq<char>, b: Seq<char>)
    requires
        0 <= i < ls.len(),
        ls[i] == a + b,
    ensures
        byte_len(join_lines(ls.update(i, a).insert(i + 1, b))) == byte_len(join_lines(ls)) + 1,
    decreases ls.len(),
{
    let r = ls.update(i, a).insert(i + 1, b);
    lemma_byte_len_concat(a, b);
    lemma_byte_len_single('\n');
    assert(width('\n') == 1);
    if i == ls.len() - 1 {
        let init = ls.drop_last();
        assert(r.drop_last() =~= init.push(a));
        assert(r.drop_last().drop_last() =~= init);
        lemma_byte_len_concat(join_lines(r.drop_last()) + seq!['\n'], b);
        lemma_byte_len_concat(join_lines(r.drop_last()), seq!['\n']);
        if ls.len() == 1 {
            assert(join_lines(r.drop_last()) == a);
        } else {
            lemma_byte_len_concat(join_lines(init) + seq!['\n'], a);
            lemma_byte_len_concat(join_lines(init), seq!['\n']);
            lemma_byte_len_concat(join_lines(init) + seq!['\n'], ls.last());
        }
    } else {
        let init = ls.drop_last();
        lemma_join_break(init, i, a, b);
        assert(r.drop_last() =~= init.update(i, a).insert(i + 1, b));
        assert(r.last() == ls.last());
        lemma_byte_len_concat(join_lines(r.drop_last()) + seq!['\n'], r.last());
        lemma_byte_len_concat(join_lines(r.drop_last()), seq!['\n']);
        lemma_byte_len_concat(join_lines(init) + seq!['\n'], ls.last());
        lemma_byte_len_concat(join_lines(init), seq!['\n']);
    }
}

/// Removes the last character of `s` and returns it, or returns `None` when
/// `s` is empty (`String::pop`); it never panics.
#[verifier::external_body]
pub(crate) fn pop_char(s: &mut String) -> (popped: Option<char>)
    ensures
        old(s)@.len() == 0 ==> popped is None && final(s)@ == old(s)@,
        old(s)@.len() > 0 ==> popped == Some(old(s)@.last()) && final(s)@ == old(s)@.drop_last(),
{
    s.pop()
}

/// Appends `c` to `s` (`String::push`). The result is said to be the old
/// characters followed by `c`. `String::push` panics when the new capacity
/// would exceed `isize::MAX` bytes; std grows a string by at most doubling
/// its capacity, so the result is kept within `max_bytes()`, half of that.
/// Running out of memory is not excluded.
#[verifier::external_body]
pub(crate) fn push_char(s: &mut String, c: char)
    requires
        byte_len(old(s)@) + width(c) <= max_bytes(),
    ensures
        final(s)@ == old(s)@.push(c),
{
    s.push(c)
}

/// The characters of `s`, in order.
pub fn chars_of(s: &str) -> (v: Vec<char>)
    ensures
        v@ == s@,
{
    broadcast use vstd::string::group_string_axioms;

    let mut v: Vec<char> = Vec::new();
    for c in it: s.chars()
        invariant
            it.seq() == s@,
            v@ == it.seq().take(it.index()),
    {
        v.push(c);
        assert(v@ =~= it.seq().take(it.index() + 1));
    }
    assert(v@ =~= s@);
    v
}

/// A string holding exactly the characters `v`.
pub fn string_of(v: &Vec<char>) -> (s: String)
    requires
        byte_len(v@) <= max_bytes(),
    ensures
        s@ == v@,
{
    let mut s = String::new();
    let mut i: usize = 0;
    while i < v.len()
        invariant
            i <= v@.len(),
            s@ == v@.take(i as int),
            byte_len(v@) <= max_bytes(),
        decreases v@.len() - i,
    {
        proof {
            lemma_byte_len_take_step(v@, i as int);
            lemma_byte_len_take_le(v@, i + 1);
        }
        push_char(&mut s, v[i]);
        assert(s@ =~= v@.take(i + 1));
        i = i + 1;
    }
    assert(v@.take(v@.len() as int) =~= v@);
    s
}


/// The lines of `t`: the pieces between `'\n'` characters, in order. There is
/// always at least one piece, and a trailing `'\n'` yields a final empty piece.
pub open spec fn split_lines(t: Seq<char>) -> Seq<Seq<char>>
    decreases t.len(),
{
    if t.len() == 0 {
        seq![Seq::<char>::empty()]
    } else {
        let p = split_lines(t.drop_last());
        if t.last() == '\n' {
            p.push(Seq::<char>::empty())
        } else {
            p.update(p.len() - 1, p.last().push(t.last()))
        }
    }
}

/// The lines `ls` joined with `'\n'` between consecutive lines.
pub open spec fn join_lines(ls: Seq<Seq<char>>) -> Seq<char>
    decreases ls.len(),
{
    if ls.len() == 0 {
        Seq::<char>::empty()
    } else if ls.len() == 1 {
        ls[0]
    } else {
        join_lines(ls.drop_last()) + seq!['\n'] + ls.last()
    }
}

/// No line holds a `'\n'`.
pub open spec fn no_newlines(ls: Seq<Seq<char>>) -> bool {
    forall|i: int| 0 <= i < ls.len() ==> !#[trigger] ls[i].contains('\n')
}

/// The views of a sequence of strings.
pub open spec fn views(v: Seq<String>) -> Seq<Seq<char>> {
    v.map_values(|s: String| s@)
}

/// Splitting always yields at least one line, and no line holds a `'\n'`.
pub proof fn lemma_split_lines_shape(t: Seq<char>)
    ensures
        split_lines(t).len() >= 1,
        no_newlines(split_lines(t)),
    decreases t.len(),
{
    if t.len() > 0 {
        lemma_split_lines_shape(t.drop_last());
        let p = split_lines(t.drop_last());
        if t.last() != '\n' {
            let q = split_lines(t);
            assert forall|i: int| 0 <= i < q.len() implies !#[trigger] q[i].contains('\n') by {
                if i == p.len() - 1 {
                    if q[i].contains('\n') {
                        let j = choose|j: int| 0 <= j < q[i].len() && q[i][j] == '\n';
                        assert(p.last().push(t.last())[j] == '\n');
                        if j < p.last().len() {
                            assert(p[p.len() - 1].contains('\n'));
                        }
                    }
                } else {
                    assert(q[i] == p[i]);
                }
            }
        } else {
            let q = split_lines(t);
            assert forall|i: int| 0 <= i < q.len() implies !#[trigger] q[i].contains('\n') by {
                if i < p.len() {
                    assert(q[i] == p[i]);
                } else {
                    assert(q[i] =~= Seq::<char>::empty());
                }
            }
        }
    }
}

/// Joining the lines of `t` gives back `t`.
pub proof fn lemma_join_split(t: Seq<char>)
    ensures
        join_lines(split_lines(t)) == t,
    decreases t.len(),
{
    if t.len() > 0 {
        lemma_join_split(t.drop_last());
        lemma_split_lines_shape(t.drop_last());
        let p = split_lines(t.drop_last());
        let q = split_lines(t);
        if t.last() == '\n' {
            assert(q.drop_last() =~= p);
            assert(t =~= t.drop_last() + seq!['\n'] + Seq::<char>::empty());
        } else {
            if p.len() == 1 {
                assert(t =~= p[0].push(t.last()));
            } else {
                assert(q.drop_last() =~= p.drop_last());
                assert(join_lines(p) == join_lines(p.drop_last()) + seq!['\n'] + p.last());
                assert(t =~= t.drop_last().push(t.last()));
                assert(t.drop_last() == join_lines(p));
                assert(t =~= join_lines(p.drop_last()) + seq!['\n'] + p.last().push(t.last()));
            }
        }
    }
}

/// Appending text without `'\n'` extends the last line.
proof fn lemma_split_append_plain(x: Seq<char>, b: Seq<char>)
    requires
        !b.contains('\n'),
    ensures
        split_lines(x + b) == split_lines(x).update(
            split_lines(x).len() - 1,
            split_lines(x).last() + b,
        ),
    decreases b.len(),
{
    lemma_split_lines_shape(x);
    if b.len() == 0 {
        assert(x + b =~= x);
        assert(split_lines(x).last() + b =~= split_lines(x).last());
        assert(split_lines(x).update(split_lines(x).len() - 1, split_lines(x).last())
            =~= split_lines(x));
    } else {
        let b0 = b.drop_last();
        assert(!b0.contains('\n')) by {
            if b0.contains('\n') {
                let j = choose|j: int| 0 <= j < b0.len() && b0[j] == '\n';
                assert(b[j] == '\n');
            }
        }
        lemma_split_append_plain(x, b0);
        assert((x + b).drop_last() =~= x + b0);
        assert((x + b).last() == b.last());
        assert(b.last() != '\n') by {
            assert(b[b.len() - 1] == b.last());
        }
        let p = split_lines(x);
        assert(p.last() + b =~= (p.last() + b0).push(b.last()));
        assert(split_lines(x + b) =~= p.update(p.len() - 1, p.last() + b));
    }
}

/// Splitting the join of newline-free lines gives back the lines.
pub proof fn lemma_split_join(ls: Seq<Seq<char>>)
    requires
        ls.len() >= 1,
        no_newlines(ls),
    ensures
        split_lines(join_lines(ls)) == ls,
    decreases ls.len(),
{
    if ls.len() == 1 {
        assert(!ls[0].contains('\n'));
        lemma_split_append_plain(Seq::<char>::empty(), ls[0]);
        assert(Seq::<char>::empty() + ls[0] =~= ls[0]);
        assert(split_lines(Seq::<char>::empty()).last() + ls[0] =~= ls[0]);
        assert(split_lines(join_lines(ls)) =~= ls);
    } else {
        let init = ls.drop_last();
        assert(no_newlines(init)) by {
            assert forall|i: int|
                0 <= i < init.len() implies !#[trigger] init[i].contains('\n') by {
                assert(init[i] == ls[i]);
            }
        }
        lemma_split_join(init);
        let x = join_lines(init) + seq!['\n'];
        assert(x.drop_last() =~= join_lines(init));
        assert(split_lines(x) == init.push(Seq::<char>::empty()));
        assert(!ls.last().contains('\n')) by {
            assert(ls[ls.len() - 1] == ls.last());
        }
        lemma_split_append_plain(x, ls.last());
        assert(Seq::<char>::empty() + ls.last() =~= ls.last());
        assert(split_lines(x + ls.last()) =~= ls);
    }
}

} // verus!
