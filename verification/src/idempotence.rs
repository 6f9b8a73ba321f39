//! Laying a value out a second time leaves it as the first layout made it.
use vstd::prelude::*;
use crate::text::{
    all_whitespace, ends_with, is_whitespace, repeat, starts_with, trim_end, trim_start, trimmed,
};
use crate::value::{
    classify_inner, formatted_value, is_close_bracket, is_open_bracket, item_lines,
    item_separators, newline_text, next_depth, non_empty, quote_wrap, split_from,
    split_top_level, splits_at, statement_separators, unwrap_value,
};

verus! {

/// Reading `x[k..]` from bracket depth `d` meets no separator that splits.
pub open spec fn no_split_from(x: Seq<char>, seps: Seq<char>, k: int, d: nat) -> bool
    decreases x.len() - k,
{
    if k < 0 || k >= x.len() {
        true
    } else {
        !splits_at(x, seps, d, k) && no_split_from(x, seps, k + 1, next_depth(d, x[k]))
    }
}

/// The bracket depth after reading `x[k..]` from depth `d`.
pub open spec fn depth_after_from(x: Seq<char>, k: int, d: nat) -> nat
    decreases x.len() - k,
{
    if k < 0 || k >= x.len() {
        d
    } else {
        depth_after_from(x, k + 1, next_depth(d, x[k]))
    }
}

/// `x` closes all brackets it opens, and holds no separator outside them.
pub open spec fn balanced_part(x: Seq<char>, seps: Seq<char>) -> bool {
    no_split_from(x, seps, 0, 0) && depth_after_from(x, 0, 0) == 0
}

/// `ps[0] + sep + ps[1] + sep + ... + sep + b`, with a `sep` after each part.
pub open spec fn joined(ps: Seq<Seq<char>>, sep: char, b: Seq<char>) -> Seq<char>
    decreases ps.len(),
{
    if ps.len() == 0 {
        b
    } else {
        ps[0] + seq![sep] + joined(ps.drop_first(), sep, b)
    }
}

proof fn lemma_advance(
    c: Seq<char>,
    seps: Seq<char>,
    i: int,
    d: nat,
    last: int,
    parts: Seq<Seq<char>>,
    x: Seq<char>,
    k: int,
)
    requires
        0 <= i,
        i + x.len() <= c.len(),
        c.subrange(i, i + x.len()) == x,
        0 <= k <= x.len(),
        no_split_from(x, seps, k, d),
    ensures
        split_from(c, seps, i + k, d, last, parts) == split_from(
            c,
            seps,
            i + x.len(),
            depth_after_from(x, k, d),
            last,
            parts,
        ),
    decreases x.len() - k,
{
    if k < x.len() {
        assert(c[i + k] == x[k]) by {
            assert(c.subrange(i, i + x.len())[k] == c[i + k]);
        }
        lemma_advance(c, seps, i, next_depth(d, x[k]), last, parts, x, k + 1);
    }
}

proof fn lemma_split_joined(
    c: Seq<char>,
    seps: Seq<char>,
    i: int,
    parts: Seq<Seq<char>>,
    ps: Seq<Seq<char>>,
    sep: char,
    b: Seq<char>,
)
    requires
        0 <= i <= c.len(),
        c.subrange(i, c.len() as int) == joined(ps, sep, b),
        seps.contains(sep),
        !is_open_bracket(sep),
        !is_close_bracket(sep),
        forall|k: int| 0 <= k < ps.len() ==> balanced_part(#[trigger] ps[k], seps),
        no_split_from(b, seps, 0, 0),
    ensures
        split_from(c, seps, i, 0, i, parts) == parts + ps + seq![b],
    decreases ps.len(),
{
    if ps.len() == 0 {
        lemma_advance(c, seps, i, 0, i, parts, b, 0);
        assert(parts + ps + seq![b] =~= parts.push(c.subrange(i, c.len() as int)));
    } else {
        let x = ps[0];
        let rest = ps.drop_first();
        let j = i + x.len();
        assert(balanced_part(ps[0], seps));
        let tail = c.subrange(i, c.len() as int);
        assert(tail == x + seq![sep] + joined(rest, sep, b));
        assert(c.subrange(i, j) =~= x) by {
            assert forall|m: int| 0 <= m < x.len() implies c.subrange(i, j)[m] == x[m] by {
                assert(tail[m] == c[i + m]);
                assert((x + seq![sep] + joined(rest, sep, b))[m] == x[m]);
            }
        }
        assert(c[j] == sep) by {
            assert(tail[x.len() as int] == c[j]);
            assert((x + seq![sep] + joined(rest, sep, b))[x.len() as int] == sep);
        }
        assert(c.subrange(j + 1, c.len() as int) =~= joined(rest, sep, b)) by {
            let r = joined(rest, sep, b);
            assert forall|m: int| 0 <= m < r.len() implies c.subrange(j + 1, c.len() as int)[m]
                == r[m] by {
                assert(tail[x.len() + 1 + m] == c[j + 1 + m]);
                assert((x + seq![sep] + r)[x.len() + 1 + m] == r[m]);
            }
        }
        lemma_advance(c, seps, i, 0, i, parts, x, 0);
        assert(splits_at(c, seps, 0, j));
        assert forall|k: int| 0 <= k < rest.len() implies balanced_part(#[trigger] rest[k], seps) by {
            assert(rest[k] == ps[k + 1]);
        }
        lemma_split_joined(c, seps, j + 1, parts.push(x), rest, sep, b);
        assert(parts.push(x) + rest + seq![b] =~= parts + ps + seq![b]);
    }
}

proof fn lemma_push(x: Seq<char>, ch: char, seps: Seq<char>, k: int, d: nat)
    requires
        0 <= k <= x.len(),
    ensures
        depth_after_from(x.push(ch), k, d) == next_depth(depth_after_from(x, k, d), ch),
        no_split_from(x.push(ch), seps, k, d) == (no_split_from(x, seps, k, d) && !splits_at(
            x.push(ch),
            seps,
            depth_after_from(x, k, d),
            x.len() as int,
        )),
    decreases x.len() - k,
{
    let y = x.push(ch);
    if k < x.len() {
        assert(y[k] == x[k]);
        assert(splits_at(y, seps, d, k) == splits_at(x, seps, d, k));
        lemma_push(x, ch, seps, k + 1, next_depth(d, x[k]));
    } else {
        assert(y[k] == ch);
        assert(depth_after_from(x, k, d) == d);
        assert(no_split_from(x, seps, k, d));
        assert(depth_after_from(y, k + 1, next_depth(d, ch)) == next_depth(d, ch));
        assert(no_split_from(y, seps, k + 1, next_depth(d, ch)));
    }
}

proof fn lemma_split_parts_balanced(
    c: Seq<char>,
    seps: Seq<char>,
    i: int,
    d: nat,
    last: int,
    parts: Seq<Seq<char>>,
)
    requires
        0 <= last <= i <= c.len(),
        forall|k: int| 0 <= k < parts.len() ==> balanced_part(#[trigger] parts[k], seps),
        no_split_from(c.subrange(last, i), seps, 0, 0),
        d == depth_after_from(c.subrange(last, i), 0, 0),
        depth_after_from(c, i, d) == 0,
    ensures
        forall|k: int|
            0 <= k < split_from(c, seps, i, d, last, parts).len() ==> balanced_part(
                #[trigger] split_from(c, seps, i, d, last, parts)[k],
                seps,
            ),
    decreases c.len() - i,
{
    if i >= c.len() {
        assert(depth_after_from(c, i, d) == d);
        let r = parts.push(c.subrange(last, c.len() as int));
        assert(split_from(c, seps, i, d, last, parts) == r);
        assert forall|k: int| 0 <= k < r.len() implies balanced_part(#[trigger] r[k], seps) by {
            if k < parts.len() {
                assert(r[k] == parts[k]);
            }
        }
    } else if splits_at(c, seps, d, i) {
        let piece = c.subrange(last, i);
        let np = parts.push(piece);
        assert forall|k: int| 0 <= k < np.len() implies balanced_part(#[trigger] np[k], seps) by {
            if k < parts.len() {
                assert(np[k] == parts[k]);
            }
        }
        assert(c.subrange(i + 1, i + 1) =~= Seq::<char>::empty());
        assert(d == 0);
        assert(next_depth(d, c[i]) == 0);
        assert(depth_after_from(c, i + 1, d) == 0);
        assert(balanced_part(piece, seps));
        assert(split_from(c, seps, i, d, last, parts) == split_from(c, seps, i + 1, d, i + 1, np));
        lemma_split_parts_balanced(c, seps, i + 1, d, i + 1, np);
    } else {
        let x = c.subrange(last, i);
        assert(c.subrange(last, i + 1) =~= x.push(c[i]));
        lemma_push(x, c[i], seps, 0, 0);
        assert(x.push(c[i])[x.len() as int] == c[i]);
        assert(splits_at(x.push(c[i]), seps, d, x.len() as int) == splits_at(c, seps, d, i));
        assert(split_from(c, seps, i, d, last, parts) == split_from(
            c,
            seps,
            i + 1,
            next_depth(d, c[i]),
            last,
            parts,
        ));
        lemma_split_parts_balanced(c, seps, i + 1, next_depth(d, c[i]), last, parts);
    }
}

/// Each part of a content that closes its brackets is balanced.
proof fn lemma_top_level_parts_balanced(c: Seq<char>, seps: Seq<char>)
    requires
        depth_after_from(c, 0, 0) == 0,
    ensures
        forall|k: int|
            0 <= k < split_top_level(c, seps).len() ==> balanced_part(
                #[trigger] split_top_level(c, seps)[k],
                seps,
            ),
{
    assert(c.subrange(0, 0) =~= Seq::<char>::empty());
    lemma_split_parts_balanced(c, seps, 0, 0, 0, Seq::empty());
}

/// No separator is whitespace.
pub open spec fn no_whitespace_separator(seps: Seq<char>) -> bool {
    forall|j: int| 0 <= j < seps.len() ==> !is_whitespace(#[trigger] seps[j])
}

proof fn lemma_trim_start_ws(w: Seq<char>, z: Seq<char>)
    requires
        all_whitespace(w),
    ensures
        trim_start(w + z) == trim_start(z),
    decreases w.len(),
{
    if w.len() > 0 {
        assert((w + z)[0] == w[0]);
        assert((w + z).drop_first() =~= w.drop_first() + z);
        assert forall|i: int| 0 <= i < w.drop_first().len() implies is_whitespace(
            #[trigger] w.drop_first()[i],
        ) by {
            assert(w.drop_first()[i] == w[i + 1]);
        }
        lemma_trim_start_ws(w.drop_first(), z);
    } else {
        assert(w + z =~= z);
    }
}

proof fn lemma_trim_end_ws(z: Seq<char>, w: Seq<char>)
    requires
        all_whitespace(w),
    ensures
        trim_end(z + w) == trim_end(z),
    decreases w.len(),
{
    if w.len() > 0 {
        assert((z + w).last() == w.last());
        assert((z + w).drop_last() =~= z + w.drop_last());
        assert forall|i: int| 0 <= i < w.drop_last().len() implies is_whitespace(
            #[trigger] w.drop_last()[i],
        ) by {
            assert(w.drop_last()[i] == w[i]);
        }
        lemma_trim_end_ws(z, w.drop_last());
    } else {
        assert(z + w =~= z);
    }
}

/// Trimming whitespace off a text that starts and ends with other characters.
proof fn lemma_trimmed_core(w1: Seq<char>, y: Seq<char>, w2: Seq<char>)
    requires
        all_whitespace(w1),
        all_whitespace(w2),
        y.len() > 0,
        !is_whitespace(y[0]),
        !is_whitespace(y.last()),
    ensures
        trimmed(w1 + y + w2) == y,
{
    assert(w1 + y + w2 =~= w1 + (y + w2));
    lemma_trim_start_ws(w1, y + w2);
    assert((y + w2)[0] == y[0]);
    assert(trim_start(y + w2) == y + w2);
    lemma_trim_end_ws(y, w2);
}

proof fn lemma_trimmed_whitespace(w: Seq<char>)
    requires
        all_whitespace(w),
    ensures
        trimmed(w) == Seq::<char>::empty(),
{
    assert(w + Seq::<char>::empty() =~= w);
    lemma_trim_start_ws(w, Seq::empty());
}

proof fn lemma_trim_start_shape(s: Seq<char>) -> (a: int)
    ensures
        0 <= a <= s.len(),
        trim_start(s) == s.subrange(a, s.len() as int),
        all_whitespace(s.subrange(0, a)),
        a == s.len() || !is_whitespace(s[a]),
    decreases s.len(),
{
    if s.len() > 0 && is_whitespace(s[0]) {
        let a1 = lemma_trim_start_shape(s.drop_first());
        let a = a1 + 1;
        assert(s.drop_first().subrange(a1, s.drop_first().len() as int) =~= s.subrange(
            a,
            s.len() as int,
        ));
        assert forall|i: int| 0 <= i < a implies is_whitespace(#[trigger] s.subrange(0, a)[i]) by {
            if i > 0 {
                assert(s.subrange(0, a)[i] == s.drop_first().subrange(0, a1)[i - 1]);
            }
        }
        if a < s.len() {
            assert(s[a] == s.drop_first()[a1]);
        }
        a
    } else {
        assert(s.subrange(0, s.len() as int) =~= s);
        0
    }
}

proof fn lemma_trim_end_shape(s: Seq<char>) -> (b: int)
    ensures
        0 <= b <= s.len(),
        trim_end(s) == s.subrange(0, b),
        all_whitespace(s.subrange(b, s.len() as int)),
        b == 0 || !is_whitespace(s[b - 1]),
    decreases s.len(),
{
    if s.len() > 0 && is_whitespace(s.last()) {
        let b = lemma_trim_end_shape(s.drop_last());
        assert(s.drop_last().subrange(0, b) =~= s.subrange(0, b));
        assert forall|i: int| 0 <= i < s.len() - b implies is_whitespace(
            #[trigger] s.subrange(b, s.len() as int)[i],
        ) by {
            if b + i < s.len() - 1 {
                assert(s.subrange(b, s.len() as int)[i] == s.drop_last().subrange(
                    b,
                    s.drop_last().len() as int,
                )[i]);
            }
        }
        if b > 0 {
            assert(s[b - 1] == s.drop_last()[b - 1]);
        }
        b
    } else {
        assert(s.subrange(0, s.len() as int) =~= s);
        s.len() as int
    }
}

/// A text is its trimmed middle between two runs of whitespace.
proof fn lemma_trimmed_shape(s: Seq<char>) -> (ab: (int, int))
    ensures
        0 <= ab.0 <= ab.1 <= s.len(),
        trimmed(s) == s.subrange(ab.0, ab.1),
        all_whitespace(s.subrange(0, ab.0)),
        all_whitespace(s.subrange(ab.1, s.len() as int)),
        s == s.subrange(0, ab.0) + trimmed(s) + s.subrange(ab.1, s.len() as int),
        trimmed(s).len() > 0 ==> !is_whitespace(trimmed(s)[0]) && !is_whitespace(
            trimmed(s).last(),
        ),
{
    let a = lemma_trim_start_shape(s);
    let t = s.subrange(a, s.len() as int);
    let b1 = lemma_trim_end_shape(t);
    let b = a + b1;
    assert(t.subrange(0, b1) =~= s.subrange(a, b));
    assert(t.subrange(b1, t.len() as int) =~= s.subrange(b, s.len() as int));
    assert(s =~= s.subrange(0, a) + s.subrange(a, b) + s.subrange(b, s.len() as int));
    if b > a {
        assert(trimmed(s)[0] == s[a]);
        assert(trimmed(s).last() == t[b1 - 1]);
    }
    (a, b)
}

/// Trimming twice trims no more than once.
pub proof fn lemma_trimmed_twice(s: Seq<char>)
    ensures
        trimmed(trimmed(s)) == trimmed(s),
{
    let t = trimmed(s);
    let _ = lemma_trimmed_shape(s);
    if t.len() > 0 {
        assert(trim_start(t) == t);
        assert(trim_end(t) == t);
    }
}

proof fn lemma_shift(a: Seq<char>, y: Seq<char>, seps: Seq<char>, j: int, d: nat)
    requires
        0 <= j <= y.len(),
    ensures
        no_split_from(a + y, seps, a.len() + j, d) == no_split_from(y, seps, j, d),
        depth_after_from(a + y, a.len() + j, d) == depth_after_from(y, j, d),
    decreases y.len() - j,
{
    if j < y.len() {
        assert((a + y)[a.len() + j] == y[j]);
        assert(splits_at(a + y, seps, d, a.len() + j) == splits_at(y, seps, d, j));
        lemma_shift(a, y, seps, j + 1, next_depth(d, y[j]));
    }
}

proof fn lemma_ws_prefix(w: Seq<char>, y: Seq<char>, seps: Seq<char>, k: int, d: nat)
    requires
        all_whitespace(w),
        no_whitespace_separator(seps),
        0 <= k <= w.len(),
    ensures
        no_split_from(w + y, seps, k, d) == no_split_from(y, seps, 0, d),
        depth_after_from(w + y, k, d) == depth_after_from(y, 0, d),
    decreases w.len() - k,
{
    if k < w.len() {
        let c = (w + y)[k];
        assert(c == w[k]);
        assert(is_whitespace(c));
        if seps.contains(c) {
            let j = choose|j: int| 0 <= j < seps.len() && seps[j] == c;
            assert(!is_whitespace(seps[j]));
        }
        assert(!splits_at(w + y, seps, d, k));
        assert(next_depth(d, c) == d);
        lemma_ws_prefix(w, y, seps, k + 1, d);
    } else {
        lemma_shift(w, y, seps, 0, d);
    }
}

proof fn lemma_ws_suffix(y: Seq<char>, w: Seq<char>, seps: Seq<char>, d: nat)
    requires
        all_whitespace(w),
        no_whitespace_separator(seps),
    ensures
        no_split_from(y + w, seps, 0, d) == no_split_from(y, seps, 0, d),
        depth_after_from(y + w, 0, d) == depth_after_from(y, 0, d),
    decreases w.len(),
{
    if w.len() == 0 {
        assert(y + w =~= y);
    } else {
        let w1 = w.drop_last();
        let c = w.last();
        assert(y + w =~= (y + w1).push(c));
        assert forall|i: int| 0 <= i < w1.len() implies is_whitespace(#[trigger] w1[i]) by {
            assert(w1[i] == w[i]);
        }
        assert(is_whitespace(c));
        lemma_push(y + w1, c, seps, 0, d);
        if seps.contains(c) {
            let j = choose|j: int| 0 <= j < seps.len() && seps[j] == c;
            assert(!is_whitespace(seps[j]));
        }
        assert((y + w1).push(c)[(y + w1).len() as int] == c);
        lemma_ws_suffix(y, w1, seps, d);
    }
}

/// Trimming keeps a part balanced.
proof fn lemma_trimmed_balanced(p: Seq<char>, seps: Seq<char>)
    requires
        balanced_part(p, seps),
        no_whitespace_separator(seps),
    ensures
        balanced_part(trimmed(p), seps),
{
    let (a, b) = lemma_trimmed_shape(p);
    let w1 = p.subrange(0, a);
    let q = trimmed(p);
    let w2 = p.subrange(b, p.len() as int);
    assert(p =~= w1 + (q + w2));
    lemma_ws_prefix(w1, q + w2, seps, 0, 0);
    lemma_ws_suffix(q, w2, seps, 0);
}

/// Whitespace before a balanced part keeps it balanced.
proof fn lemma_ws_then_balanced(w: Seq<char>, q: Seq<char>, seps: Seq<char>)
    requires
        all_whitespace(w),
        balanced_part(q, seps),
        no_whitespace_separator(seps),
    ensures
        balanced_part(w + q, seps),
{
    lemma_ws_prefix(w, q, seps, 0, 0);
}

/// Whitespace holds no separator.
proof fn lemma_ws_no_split(w: Seq<char>, seps: Seq<char>)
    requires
        all_whitespace(w),
        no_whitespace_separator(seps),
    ensures
        no_split_from(w, seps, 0, 0),
{
    assert(w + Seq::<char>::empty() =~= w);
    lemma_ws_prefix(w, Seq::empty(), seps, 0, 0);
}

proof fn lemma_non_empty_parts(raw: Seq<Seq<char>>, seps: Seq<char>)
    requires
        forall|j: int| 0 <= j < raw.len() ==> balanced_part(#[trigger] raw[j], seps),
    ensures
        forall|k: int|
            0 <= k < non_empty(raw).len() ==> balanced_part(#[trigger] non_empty(raw)[k], seps)
                && trimmed(non_empty(raw)[k]).len() > 0,
    decreases raw.len(),
{
    if raw.len() > 0 {
        let r = raw.drop_last();
        assert forall|j: int| 0 <= j < r.len() implies balanced_part(#[trigger] r[j], seps) by {
            assert(r[j] == raw[j]);
        }
        lemma_non_empty_parts(r, seps);
        let ne = non_empty(raw);
        if trimmed(raw.last()).len() > 0 {
            assert(ne == non_empty(r).push(raw.last()));
            assert forall|k: int| 0 <= k < ne.len() implies balanced_part(#[trigger] ne[k], seps)
                && trimmed(ne[k]).len() > 0 by {
                if k < non_empty(r).len() {
                    assert(ne[k] == non_empty(r)[k]);
                } else {
                    assert(ne[k] == raw.last());
                    assert(raw.last() == raw[raw.len() - 1]);
                }
            }
        }
    }
}

proof fn lemma_non_empty_keeps_all(ps: Seq<Seq<char>>)
    requires
        forall|k: int| 0 <= k < ps.len() ==> trimmed(#[trigger] ps[k]).len() > 0,
    ensures
        non_empty(ps) == ps,
    decreases ps.len(),
{
    if ps.len() > 0 {
        let r = ps.drop_last();
        assert forall|k: int| 0 <= k < r.len() implies trimmed(#[trigger] r[k]).len() > 0 by {
            assert(r[k] == ps[k]);
        }
        lemma_non_empty_keeps_all(r);
        assert(trimmed(ps.last()).len() > 0) by {
            assert(ps.last() == ps[ps.len() - 1]);
        }
        assert(r.push(ps.last()) =~= ps);
    }
}

proof fn lemma_joined_push(ps: Seq<Seq<char>>, x: Seq<char>, sep: char)
    ensures
        joined(ps.push(x), sep, Seq::empty()) == joined(ps, sep, Seq::empty()) + x + seq![sep],
    decreases ps.len(),
{
    if ps.len() == 0 {
        assert(ps.push(x).drop_first() =~= Seq::<Seq<char>>::empty());
        assert(ps.push(x)[0] == x);
        assert(joined(Seq::<Seq<char>>::empty(), sep, Seq::empty()) == Seq::<char>::empty());
        assert(joined(ps, sep, Seq::empty()) == Seq::<char>::empty());
        assert(joined(ps.push(x), sep, Seq::empty()) =~= joined(ps, sep, Seq::empty()) + x
            + seq![sep]);
    } else {
        assert(ps.push(x).drop_first() =~= ps.drop_first().push(x));
        assert(ps.push(x)[0] == ps[0]);
        lemma_joined_push(ps.drop_first(), x, sep);
        assert(joined(ps.push(x), sep, Seq::empty()) =~= joined(ps, sep, Seq::empty()) + x
            + seq![sep]);
    }
}

proof fn lemma_joined_tail(ps: Seq<Seq<char>>, sep: char, b: Seq<char>)
    ensures
        joined(ps, sep, Seq::empty()) + b == joined(ps, sep, b),
    decreases ps.len(),
{
    if ps.len() == 0 {
        assert(Seq::<char>::empty() + b =~= b);
    } else {
        lemma_joined_tail(ps.drop_first(), sep, b);
        assert(joined(ps, sep, Seq::empty()) + b =~= joined(ps, sep, b));
    }
}

proof fn lemma_joined_ends_with_sep(ps: Seq<Seq<char>>, sep: char)
    requires
        ps.len() > 0,
    ensures
        joined(ps, sep, Seq::empty()).len() > 0,
        joined(ps, sep, Seq::empty()).last() == sep,
{
    let r = ps.drop_last();
    assert(r.push(ps.last()) =~= ps);
    lemma_joined_push(r, ps.last(), sep);
}

/// The pieces `newline + trimmed(p)` of the layout of the parts `ps`.
pub open spec fn line_pieces(ps: Seq<Seq<char>>, indent: Seq<char>, depth: nat) -> Seq<Seq<char>> {
    Seq::new(ps.len(), |k: int| newline_text(indent, depth) + trimmed(ps[k]))
}

proof fn lemma_item_lines_joined(ps: Seq<Seq<char>>, indent: Seq<char>, depth: nat, term: char)
    ensures
        item_lines(ps, indent, depth, term) == joined(
            line_pieces(ps, indent, depth),
            term,
            Seq::empty(),
        ),
    decreases ps.len(),
{
    if ps.len() == 0 {
        assert(line_pieces(ps, indent, depth) =~= Seq::<Seq<char>>::empty());
    } else {
        let r = ps.drop_last();
        lemma_item_lines_joined(r, indent, depth, term);
        let x = newline_text(indent, depth) + trimmed(ps.last());
        assert(line_pieces(ps, indent, depth) =~= line_pieces(r, indent, depth).push(x));
        lemma_joined_push(line_pieces(r, indent, depth), x, term);
        assert(item_lines(ps, indent, depth, term) =~= joined(
            line_pieces(ps, indent, depth),
            term,
            Seq::empty(),
        ));
    }
}

proof fn lemma_item_lines_same_trims(
    a: Seq<Seq<char>>,
    b: Seq<Seq<char>>,
    indent: Seq<char>,
    depth: nat,
    term: char,
)
    requires
        a.len() == b.len(),
        forall|k: int| 0 <= k < a.len() ==> trimmed(#[trigger] a[k]) == trimmed(b[k]),
    ensures
        item_lines(a, indent, depth, term) == item_lines(b, indent, depth, term),
    decreases a.len(),
{
    if a.len() > 0 {
        assert forall|k: int| 0 <= k < a.len() - 1 implies trimmed(#[trigger] a.drop_last()[k])
            == trimmed(b.drop_last()[k]) by {
            assert(a.drop_last()[k] == a[k]);
            assert(b.drop_last()[k] == b[k]);
        }
        lemma_item_lines_same_trims(a.drop_last(), b.drop_last(), indent, depth, term);
        assert(trimmed(a.last()) == trimmed(b.last())) by {
            assert(a.last() == a[a.len() - 1]);
            assert(b.last() == b[b.len() - 1]);
        }
    }
}

proof fn lemma_repeat_whitespace(s: Seq<char>, n: nat)
    requires
        all_whitespace(s),
    ensures
        all_whitespace(repeat(s, n)),
    decreases n,
{
    if n > 0 {
        lemma_repeat_whitespace(s, (n - 1) as nat);
        let r = repeat(s, (n - 1) as nat);
        assert forall|i: int| 0 <= i < repeat(s, n).len() implies is_whitespace(
            #[trigger] repeat(s, n)[i],
        ) by {
            if i < r.len() {
                assert(repeat(s, n)[i] == r[i]);
            } else {
                assert(repeat(s, n)[i] == s[i - r.len()]);
            }
        }
    }
}

proof fn lemma_newline_whitespace(indent: Seq<char>, depth: nat)
    requires
        all_whitespace(indent),
    ensures
        all_whitespace(newline_text(indent, depth)),
{
    lemma_repeat_whitespace(indent, depth);
    let r = repeat(indent, depth);
    assert forall|i: int| 0 <= i < newline_text(indent, depth).len() implies is_whitespace(
        #[trigger] newline_text(indent, depth)[i],
    ) by {
        if i == 0 {
            assert(newline_text(indent, depth)[i] == '\n');
        } else {
            assert(newline_text(indent, depth)[i] == r[i - 1]);
        }
    }
}

/// The pairs of quotes that `quote_wrap` chooses from.
pub open spec fn quote_pair(o: Seq<char>, c: Seq<char>) -> bool {
    ||| o == seq!['{', '`'] && c == seq!['`', '}']
    ||| o == seq!['`'] && c == seq!['`']
    ||| o == seq!['{', '"'] && c == seq!['"', '}']
    ||| o == seq!['"'] && c == seq!['"']
    ||| o == seq!['\''] && c == seq!['\'']
}

proof fn lemma_starts_with_at(s: Seq<char>, p: Seq<char>)
    ensures
        starts_with(s, p) == (p.len() <= s.len() && forall|i: int|
            0 <= i < p.len() ==> #[trigger] s[i] == p[i]),
{
    if p.len() <= s.len() {
        if forall|i: int| 0 <= i < p.len() ==> #[trigger] s[i] == p[i] {
            assert(s.subrange(0, p.len() as int) =~= p);
        }
        if s.subrange(0, p.len() as int) == p {
            assert forall|i: int| 0 <= i < p.len() implies #[trigger] s[i] == p[i] by {
                assert(s.subrange(0, p.len() as int)[i] == s[i]);
            }
        }
    }
}

proof fn lemma_ends_with_at(s: Seq<char>, p: Seq<char>)
    ensures
        ends_with(s, p) == (p.len() <= s.len() && forall|i: int|
            0 <= i < p.len() ==> #[trigger] s[s.len() - p.len() + i] == p[i]),
{
    if p.len() <= s.len() {
        let off = s.len() - p.len();
        if forall|i: int| 0 <= i < p.len() ==> #[trigger] s[s.len() - p.len() + i] == p[i] {
            assert forall|i: int| 0 <= i < p.len() implies s.subrange(off, s.len() as int)[i]
                == p[i] by {
                assert(s[s.len() - p.len() + i] == p[i]);
            }
            assert(s.subrange(off, s.len() as int) =~= p);
        }
        if s.subrange(off, s.len() as int) == p {
            assert forall|i: int| 0 <= i < p.len() implies #[trigger] s[s.len() - p.len() + i]
                == p[i] by {
                assert(s.subrange(off, s.len() as int)[i] == s[off + i]);
            }
        }
    }
}

/// A text in a pair of quotes: how the value functions read it.
proof fn lemma_quoted_text(o: Seq<char>, m: Seq<char>, c: Seq<char>, y: Seq<char>)
    requires
        quote_pair(o, c),
    ensures
        quote_wrap(o + m + c) == (o, c),
        unwrap_value(o + m + c) == m,
        classify_inner(o + m + c, y) == (
            starts_with(y, seq!['{']) && ends_with(y, seq!['}']),
            starts_with(y, seq!['[']) && ends_with(y, seq![']']),
        ),
        (o + m + c).len() > 0,
        !is_whitespace((o + m + c)[0]),
        !is_whitespace((o + m + c).last()),
{
    let s = o + m + c;
    let n = s.len();
    assert(s[0] == o[0]);
    if o.len() == 2 {
        assert(s[1] == o[1]);
    }
    assert(s[n - 1] == c[c.len() - 1]);
    if c.len() == 2 {
        assert(s[n - 2] == c[0]);
    }
    assert(s.last() == s[n - 1]);
    lemma_starts_with_at(s, seq!['{', '`']);
    lemma_starts_with_at(s, seq!['`']);
    lemma_starts_with_at(s, seq!['{', '"']);
    lemma_starts_with_at(s, seq!['"']);
    lemma_starts_with_at(s, seq!['\'']);
    lemma_ends_with_at(s, seq!['`', '}']);
    lemma_ends_with_at(s, seq!['`']);
    lemma_ends_with_at(s, seq!['"', '}']);
    lemma_ends_with_at(s, seq!['"']);
    lemma_ends_with_at(s, seq!['\'']);
    if o.len() == 2 {
        assert(s.subrange(2, n - 2) =~= m);
    } else {
        assert(s.subrange(1, n - 1) =~= m);
    }
}

pub open spec fn open_bracket_text(is_obj: bool) -> Seq<char> {
    if is_obj {
        seq!['{']
    } else {
        seq!['[']
    }
}

pub open spec fn close_bracket_text(is_obj: bool) -> Seq<char> {
    if is_obj {
        seq!['}']
    } else {
        seq![']']
    }
}

/// The lines of a layout split again into parts with the same trimmed texts.
proof fn lemma_lines_split_again(
    items: Seq<Seq<char>>,
    seps: Seq<char>,
    term: char,
    indent: Seq<char>,
    depth: nat,
    tail: Seq<char>,
)
    requires
        seps.contains(term),
        !is_open_bracket(term),
        !is_close_bracket(term),
        no_whitespace_separator(seps),
        all_whitespace(indent),
        all_whitespace(tail),
        forall|k: int|
            0 <= k < items.len() ==> balanced_part(#[trigger] items[k], seps) && trimmed(
                items[k],
            ).len() > 0,
    ensures
        ({
            let again = non_empty(
                split_top_level(item_lines(items, indent, depth, term) + tail, seps),
            );
            &&& again.len() == items.len()
            &&& item_lines(again, indent, depth, term) == item_lines(items, indent, depth, term)
        }),
{
    let g = item_lines(items, indent, depth, term);
    let content = g + tail;
    let lp = line_pieces(items, indent, depth);
    lemma_item_lines_joined(items, indent, depth, term);
    lemma_joined_tail(lp, term, tail);
    lemma_newline_whitespace(indent, depth);
    assert forall|k: int| 0 <= k < lp.len() implies balanced_part(#[trigger] lp[k], seps) && trimmed(
        lp[k],
    ) == trimmed(items[k]) && trimmed(lp[k]).len() > 0 by {
        lemma_trimmed_balanced(items[k], seps);
        lemma_ws_then_balanced(newline_text(indent, depth), trimmed(items[k]), seps);
        let _ = lemma_trimmed_shape(items[k]);
        assert(newline_text(indent, depth) + trimmed(items[k]) + Seq::<char>::empty() =~= lp[k]);
        lemma_trimmed_core(newline_text(indent, depth), trimmed(items[k]), Seq::empty());
        lemma_trimmed_twice(items[k]);
    }
    lemma_ws_no_split(tail, seps);
    assert(content.subrange(0, content.len() as int) =~= content);
    lemma_split_joined(content, seps, 0, Seq::empty(), lp, term, tail);
    assert(split_top_level(content, seps) =~= lp.push(tail));
    lemma_trimmed_whitespace(tail);
    assert(non_empty(lp.push(tail)) == non_empty(lp)) by {
        assert(lp.push(tail).drop_last() =~= lp);
        assert(lp.push(tail).last() == tail);
    }
    lemma_non_empty_keeps_all(lp);
    lemma_item_lines_same_trims(lp, items, indent, depth, term);
}

proof fn lemma_item_separators()
    ensures
        no_whitespace_separator(item_separators()),
        item_separators().contains(','),
{
    let seps = item_separators();
    assert forall|j: int| 0 <= j < seps.len() implies !is_whitespace(#[trigger] seps[j]) by {
        assert(seps[j] == ',');
    }
    assert(seps[0] == ',');
}

proof fn lemma_statement_separators()
    ensures
        no_whitespace_separator(statement_separators()),
        statement_separators().contains(';'),
{
    let seps = statement_separators();
    assert forall|j: int| 0 <= j < seps.len() implies !is_whitespace(#[trigger] seps[j]) by {
        assert(seps[j] == ';' || seps[j] == ',');
    }
    assert(seps[0] == ';');
}

/// The layout of an object or array literal is laid out again as it is.
#[verifier::spinoff_prover]
#[verifier::rlimit(60)]
proof fn lemma_items_layout_stable(
    o: Seq<char>,
    c: Seq<char>,
    is_obj: bool,
    items: Seq<Seq<char>>,
    indent: Seq<char>,
    depth: nat,
    line_width: nat,
)
    requires
        quote_pair(o, c),
        all_whitespace(indent),
        forall|k: int|
            0 <= k < items.len() ==> balanced_part(#[trigger] items[k], item_separators())
                && trimmed(items[k]).len() > 0,
    ensures
        ({
            let out = o + open_bracket_text(is_obj) + item_lines(items, indent, depth + 1, ',')
                + newline_text(indent, depth) + close_bracket_text(is_obj) + c;
            formatted_value(out, indent, depth, line_width) == out
        }),
{
    let seps = item_separators();
    lemma_item_separators();
    let g = item_lines(items, indent, depth + 1, ',');
    let nl = newline_text(indent, depth);
    let y = open_bracket_text(is_obj) + g + nl + close_bracket_text(is_obj);
    let out = o + open_bracket_text(is_obj) + g + nl + close_bracket_text(is_obj) + c;
    assert(out =~= o + y + c);
    lemma_quoted_text(o, y, c, y);
    assert(Seq::<char>::empty() + out + Seq::<char>::empty() =~= out);
    lemma_trimmed_core(Seq::empty(), out, Seq::empty());
    let ny = y.len();
    assert(y[0] == open_bracket_text(is_obj)[0]);
    assert(y[ny - 1] == close_bracket_text(is_obj)[0]);
    assert(y.last() == y[ny - 1]);
    assert(Seq::<char>::empty() + y + Seq::<char>::empty() =~= y);
    lemma_trimmed_core(Seq::empty(), y, Seq::empty());
    lemma_starts_with_at(y, seq!['{']);
    lemma_ends_with_at(y, seq!['}']);
    lemma_starts_with_at(y, seq!['[']);
    lemma_ends_with_at(y, seq![']']);
    assert(classify_inner(out, y) == (is_obj, !is_obj));
    let content = y.subrange(1, ny - 1);
    assert(content =~= g + nl);
    lemma_newline_whitespace(indent, depth);
    lemma_lines_split_again(items, seps, ',', indent, depth + 1, nl);
    let again = non_empty(split_top_level(content, seps));
    assert(trimmed(unwrap_value(trimmed(out))) == y);
    assert(formatted_value(out, indent, depth, line_width) == if again.len() <= 1 && crate::text::utf8_len(out) <= line_width {
        out
    } else {
        o + open_bracket_text(is_obj) + item_lines(again, indent, depth + 1, ',') + nl
            + close_bracket_text(is_obj) + c
    });
}

/// The layout of statements is laid out again as it is.
#[verifier::spinoff_prover]
#[verifier::rlimit(60)]
proof fn lemma_statements_layout_stable(
    o: Seq<char>,
    c: Seq<char>,
    parts: Seq<Seq<char>>,
    indent: Seq<char>,
    depth: nat,
    line_width: nat,
)
    requires
        quote_pair(o, c),
        all_whitespace(indent),
        forall|k: int|
            0 <= k < parts.len() ==> balanced_part(#[trigger] parts[k], statement_separators())
                && trimmed(parts[k]).len() > 0,
    ensures
        ({
            let out = o + item_lines(parts, indent, depth + 1, ';') + newline_text(indent, depth)
                + c;
            formatted_value(out, indent, depth, line_width) == out
        }),
{
    let seps = statement_separators();
    lemma_statement_separators();
    let g = item_lines(parts, indent, depth + 1, ';');
    let nl = newline_text(indent, depth);
    let nl1 = newline_text(indent, depth + 1);
    let m = g + nl;
    let out = o + g + nl + c;
    assert(out =~= o + m + c);
    lemma_newline_whitespace(indent, depth + 1);
    lemma_newline_whitespace(indent, depth);
    assert(Seq::<char>::empty() + out + Seq::<char>::empty() =~= out);
    if parts.len() == 0 {
        let e = Seq::<char>::empty();
        assert(g =~= e);
        assert(m =~= nl);
        lemma_quoted_text(o, m, c, e);
        lemma_trimmed_core(Seq::empty(), out, Seq::empty());
        lemma_trimmed_whitespace(nl);
        lemma_starts_with_at(e, seq!['{']);
        lemma_starts_with_at(e, seq!['[']);
        assert(e.subrange(0, 0) =~= e);
        assert(split_top_level(e, seps) =~= seq![e]);
        lemma_trimmed_whitespace(e);
        assert(seq![e].drop_last() =~= Seq::<Seq<char>>::empty());
        assert(seq![e].last() == e);
        assert(non_empty(Seq::<Seq<char>>::empty()) =~= Seq::<Seq<char>>::empty());
        assert(non_empty(seq![e]) =~= Seq::<Seq<char>>::empty());
        assert(item_lines(Seq::<Seq<char>>::empty(), indent, depth + 1, ';') =~= e);
        assert(trimmed(out) == out);
        assert(unwrap_value(out) == m);
        assert(trimmed(m) == e);
        assert(classify_inner(out, e) == (false, false));
        assert(o + item_lines(Seq::<Seq<char>>::empty(), indent, depth + 1, ';') + nl + c =~= out);
        assert(formatted_value(out, indent, depth, line_width) == if non_empty(
            split_top_level(e, seps),
        ).len() <= 1 && crate::text::utf8_len(out) <= line_width {
            out
        } else {
            o + item_lines(non_empty(split_top_level(e, seps)), indent, depth + 1, ';') + nl + c
        });
    } else {
        let lp = line_pieces(parts, indent, depth + 1);
        lemma_item_lines_joined(parts, indent, depth + 1, ';');
        let q1 = trimmed(parts[0]);
        let firsts = lp.update(0, q1);
        let qq = joined(firsts, ';', Seq::empty());
        assert(firsts.drop_first() =~= lp.drop_first());
        assert(lp[0] == nl1 + q1);
        assert(g =~= nl1 + qq);
        assert(m =~= nl1 + qq + nl);
        let _ = lemma_trimmed_shape(parts[0]);
        lemma_joined_ends_with_sep(firsts, ';');
        assert(qq[0] == q1[0]);
        lemma_trimmed_core(nl1, qq, nl);
        lemma_quoted_text(o, m, c, qq);
        lemma_trimmed_core(Seq::empty(), out, Seq::empty());
        lemma_ends_with_at(qq, seq!['}']);
        lemma_ends_with_at(qq, seq![']']);
        assert(qq[qq.len() - 1] == qq.last());
        lemma_firsts_split_again(parts, indent, depth);
        let again = non_empty(split_top_level(qq, seps));
        assert(trimmed(out) == out);
        assert(unwrap_value(out) == m);
        assert(trimmed(m) == qq);
        assert(!ends_with(qq, seq!['}'])) by {
            if ends_with(qq, seq!['}']) {
                assert(qq.subrange(qq.len() - 1, qq.len() as int)[0] == qq.last());
            }
        }
        assert(!ends_with(qq, seq![']'])) by {
            if ends_with(qq, seq![']']) {
                assert(qq.subrange(qq.len() - 1, qq.len() as int)[0] == qq.last());
            }
        }
        assert(classify_inner(out, qq) == (false, false));
        assert(formatted_value(out, indent, depth, line_width) == if again.len() <= 1
            && crate::text::utf8_len(out) <= line_width {
            out
        } else {
            o + item_lines(again, indent, depth + 1, ';') + nl + c
        });
    }
}

/// The statements of a layout, with the first line break trimmed off, split
/// again into parts with the same trimmed texts.
proof fn lemma_firsts_split_again(parts: Seq<Seq<char>>, indent: Seq<char>, depth: nat)
    requires
        parts.len() > 0,
        all_whitespace(indent),
        forall|k: int|
            0 <= k < parts.len() ==> balanced_part(#[trigger] parts[k], statement_separators())
                && trimmed(parts[k]).len() > 0,
    ensures
        ({
            let lp = line_pieces(parts, indent, depth + 1);
            let qq = joined(lp.update(0, trimmed(parts[0])), ';', Seq::empty());
            let again = non_empty(split_top_level(qq, statement_separators()));
            &&& again.len() == parts.len()
            &&& item_lines(again, indent, depth + 1, ';') == item_lines(
                parts,
                indent,
                depth + 1,
                ';',
            )
        }),
{
    let seps = statement_separators();
    lemma_statement_separators();
    let nl1 = newline_text(indent, depth + 1);
    lemma_newline_whitespace(indent, depth + 1);
    let lp = line_pieces(parts, indent, depth + 1);
    let firsts = lp.update(0, trimmed(parts[0]));
    let qq = joined(firsts, ';', Seq::empty());
    assert forall|k: int| 0 <= k < firsts.len() implies balanced_part(#[trigger] firsts[k], seps)
        && trimmed(firsts[k]) == trimmed(parts[k]) && trimmed(firsts[k]).len() > 0 by {
        lemma_trimmed_balanced(parts[k], seps);
        lemma_trimmed_twice(parts[k]);
        let _ = lemma_trimmed_shape(parts[k]);
        if k > 0 {
            assert(firsts[k] == lp[k]);
            lemma_ws_then_balanced(nl1, trimmed(parts[k]), seps);
            assert(nl1 + trimmed(parts[k]) + Seq::<char>::empty() =~= lp[k]);
            lemma_trimmed_core(nl1, trimmed(parts[k]), Seq::empty());
        }
    }
    assert(qq.subrange(0, qq.len() as int) =~= qq);
    lemma_ws_no_split(Seq::<char>::empty(), seps);
    lemma_split_joined(qq, seps, 0, Seq::empty(), firsts, ';', Seq::empty());
    assert(split_top_level(qq, seps) =~= firsts.push(Seq::<char>::empty()));
    lemma_trimmed_whitespace(Seq::<char>::empty());
    assert(non_empty(firsts.push(Seq::<char>::empty())) == non_empty(firsts)) by {
        assert(firsts.push(Seq::<char>::empty()).drop_last() =~= firsts);
        assert(firsts.push(Seq::<char>::empty()).last() == Seq::<char>::empty());
    }
    lemma_non_empty_keeps_all(firsts);
    lemma_item_lines_same_trims(firsts, parts, indent, depth + 1, ';');
}

/// A value in one of the pairs of quotes that the layout keeps: it starts with
/// the opening quote chosen for it and ends with the matching closing quote.
pub open spec fn quoted(t: Seq<char>) -> bool {
    let (o, c) = quote_wrap(t);
    &&& quote_pair(o, c)
    &&& o.len() + c.len() <= t.len()
    &&& ends_with(t, c)
}

/// The text whose top-level parts the layout puts on lines of their own: the
/// inside of the brackets of an object or array literal, or else the whole
/// inside of the quotes.
pub open spec fn layout_content(v: Seq<char>) -> Seq<char> {
    let t = trimmed(v);
    let inner = trimmed(unwrap_value(t));
    let (is_obj, is_arr) = classify_inner(t, inner);
    if is_obj || is_arr {
        inner.subrange(1, inner.len() - 1)
    } else {
        inner
    }
}

/// A quoted text is its quotes around what they enclose.
proof fn lemma_quoted_parts(t: Seq<char>)
    requires
        quoted(t),
    ensures
        t == quote_wrap(t).0 + t.subrange(
            quote_wrap(t).0.len() as int,
            t.len() - quote_wrap(t).1.len(),
        ) + quote_wrap(t).1,
{
    let (o, c) = quote_wrap(t);
    let m = t.subrange(o.len() as int, t.len() - c.len());
    assert(starts_with(t, o));
    lemma_starts_with_at(t, o);
    lemma_ends_with_at(t, c);
    assert forall|i: int| 0 <= i < t.len() implies #[trigger] t[i] == (o + m + c)[i] by {
        if i < o.len() {
        } else if i < t.len() - c.len() {
        } else {
            assert(t[t.len() - c.len() + (i - (t.len() - c.len()))] == c[i - (t.len() - c.len())]);
        }
    }
    assert(t =~= o + m + c);
}

/// Laying out a quoted attribute value whose brackets are balanced, and then
/// laying out the result again, gives the first layout unchanged.
#[verifier::spinoff_prover]
#[verifier::rlimit(60)]
pub proof fn lemma_value_layout_idempotent(
    v: Seq<char>,
    indent: Seq<char>,
    depth: nat,
    line_width: nat,
)
    requires
        all_whitespace(indent),
        quoted(trimmed(v)),
        depth_after_from(layout_content(v), 0, 0) == 0,
    ensures
        formatted_value(formatted_value(v, indent, depth, line_width), indent, depth, line_width)
            == formatted_value(v, indent, depth, line_width),
{
    let t = trimmed(v);
    lemma_trimmed_twice(v);
    let (o, c) = quote_wrap(t);
    let m = t.subrange(o.len() as int, t.len() - c.len());
    lemma_quoted_parts(t);
    let inner = trimmed(m);
    lemma_quoted_text(o, m, c, inner);
    let (is_obj, is_arr) = classify_inner(t, inner);
    let out = formatted_value(v, indent, depth, line_width);
    if is_obj || is_arr {
        assert(inner.len() >= 2) by {
            if inner.len() < 2 {
                assert(inner.subrange(0, 1)[0] == inner[0]);
                assert(inner.subrange(inner.len() - 1, inner.len() as int)[0] == inner[0]);
            }
        }
        let content = inner.subrange(1, inner.len() - 1);
        let seps = item_separators();
        lemma_top_level_parts_balanced(content, seps);
        lemma_non_empty_parts(split_top_level(content, seps), seps);
        let items = non_empty(split_top_level(content, seps));
        if items.len() <= 1 && crate::text::utf8_len(t) <= line_width {
            assert(out == t);
            assert(formatted_value(t, indent, depth, line_width) == out);
        } else {
            lemma_items_layout_stable(o, c, is_obj, items, indent, depth, line_width);
            assert(out == o + open_bracket_text(is_obj) + item_lines(items, indent, depth + 1, ',')
                + newline_text(indent, depth) + close_bracket_text(is_obj) + c);
        }
    } else {
        let seps = statement_separators();
        lemma_top_level_parts_balanced(inner, seps);
        lemma_non_empty_parts(split_top_level(inner, seps), seps);
        let parts = non_empty(split_top_level(inner, seps));
        if parts.len() <= 1 && crate::text::utf8_len(t) <= line_width {
            assert(out == t);
            assert(formatted_value(t, indent, depth, line_width) == out);
        } else {
            lemma_statements_layout_stable(o, c, parts, indent, depth, line_width);
            assert(out == o + item_lines(parts, indent, depth + 1, ';') + newline_text(indent, depth)
                + c);
        }
    }
}

/// The first line of the statement layout of unquoted statements: each
/// statement trimmed and followed by `;`, the first without a line break before it.
proof fn lemma_unquoted_statements_trim(parts: Seq<Seq<char>>, indent: Seq<char>, depth: nat)
    requires
        parts.len() > 0,
        all_whitespace(indent),
        forall|k: int|
            0 <= k < parts.len() ==> balanced_part(#[trigger] parts[k], statement_separators())
                && trimmed(parts[k]).len() > 0,
    ensures
        ({
            let lp = line_pieces(parts, indent, depth + 1);
            let qq = joined(lp.update(0, trimmed(parts[0])), ';', Seq::empty());
            let out = item_lines(parts, indent, depth + 1, ';') + newline_text(indent, depth);
            &&& trimmed(out) == qq
            &&& qq.len() > trimmed(parts[0]).len()
            &&& qq.subrange(0, trimmed(parts[0]).len() as int) == trimmed(parts[0])
            &&& qq[trimmed(parts[0]).len() as int] == ';'
            &&& parts.len() == 1 ==> qq == trimmed(parts[0]) + seq![';']
        }),
{
    let g = item_lines(parts, indent, depth + 1, ';');
    let nl = newline_text(indent, depth);
    let nl1 = newline_text(indent, depth + 1);
    lemma_newline_whitespace(indent, depth + 1);
    lemma_newline_whitespace(indent, depth);
    let lp = line_pieces(parts, indent, depth + 1);
    lemma_item_lines_joined(parts, indent, depth + 1, ';');
    let q1 = trimmed(parts[0]);
    let firsts = lp.update(0, q1);
    let qq = joined(firsts, ';', Seq::empty());
    let rest = joined(firsts.drop_first(), ';', Seq::empty());
    assert(firsts.drop_first() =~= lp.drop_first());
    assert(lp[0] == nl1 + q1);
    assert(g =~= nl1 + qq);
    assert(qq =~= q1 + seq![';'] + rest);
    let _ = lemma_trimmed_shape(parts[0]);
    lemma_joined_ends_with_sep(firsts, ';');
    assert(qq[0] == q1[0]);
    lemma_trimmed_core(nl1, qq, nl);
    assert(g + nl =~= nl1 + qq + nl);
    assert(qq.subrange(0, q1.len() as int) =~= q1);
    if parts.len() == 1 {
        assert(firsts.drop_first() =~= Seq::<Seq<char>>::empty());
        assert(rest =~= Seq::<char>::empty());
        assert(qq =~= q1 + seq![';']);
    }
}

/// A text that starts with `p` followed by `;` has the quotes that `p` has.
proof fn lemma_quote_wrap_of_prefix(p: Seq<char>, s: Seq<char>)
    requires
        p.len() > 0,
        s.len() > p.len(),
        s.subrange(0, p.len() as int) == p,
        s[p.len() as int] == ';',
    ensures
        quote_wrap(s) == quote_wrap(p),
{
    lemma_starts_with_at(s, seq!['{', '`']);
    lemma_starts_with_at(s, seq!['`']);
    lemma_starts_with_at(s, seq!['{', '"']);
    lemma_starts_with_at(s, seq!['"']);
    lemma_starts_with_at(s, seq!['\'']);
    lemma_starts_with_at(p, seq!['{', '`']);
    lemma_starts_with_at(p, seq!['`']);
    lemma_starts_with_at(p, seq!['{', '"']);
    lemma_starts_with_at(p, seq!['"']);
    lemma_starts_with_at(p, seq!['\'']);
    assert(s[0] == p[0]);
    if p.len() > 1 {
        assert(s[1] == s.subrange(0, p.len() as int)[1]);
    }
}

/// Laying out an unquoted value whose brackets are balanced, and then laying
/// out the result again, gives the first layout unchanged when the first
/// layout kept the value on its line, or when it put statements on lines of
/// their own, the first of them not starting with a quote, and either more
/// than one statement or one that with its `;` is wider than the line.
#[verifier::spinoff_prover]
#[verifier::rlimit(60)]
pub proof fn lemma_unquoted_value_layout_idempotent(
    v: Seq<char>,
    indent: Seq<char>,
    depth: nat,
    line_width: nat,
)
    requires
        all_whitespace(indent),
        quote_wrap(trimmed(v)) == (Seq::<char>::empty(), Seq::<char>::empty()),
        depth_after_from(trimmed(v), 0, 0) == 0,
        ({
            let parts = non_empty(split_top_level(trimmed(v), statement_separators()));
            ||| parts.len() <= 1 && crate::text::utf8_len(trimmed(v)) <= line_width
            ||| parts.len() > 0 && quote_wrap(trimmed(parts[0])) == (
                Seq::<char>::empty(),
                Seq::<char>::empty(),
            ) && (parts.len() >= 2 || crate::text::utf8_len(trimmed(parts[0]) + seq![';'])
                > line_width)
        }),
    ensures
        formatted_value(formatted_value(v, indent, depth, line_width), indent, depth, line_width)
            == formatted_value(v, indent, depth, line_width),
{
    let t = trimmed(v);
    lemma_trimmed_twice(v);
    let e = Seq::<char>::empty();
    assert(unwrap_value(t) == t);
    assert(classify_inner(t, t) == (false, false));
    let seps = statement_separators();
    lemma_statement_separators();
    lemma_top_level_parts_balanced(t, seps);
    lemma_non_empty_parts(split_top_level(t, seps), seps);
    let parts = non_empty(split_top_level(t, seps));
    let out = formatted_value(v, indent, depth, line_width);
    if parts.len() <= 1 && crate::text::utf8_len(t) <= line_width {
        assert(out == t);
        assert(formatted_value(t, indent, depth, line_width) == out);
    } else {
        let g = item_lines(parts, indent, depth + 1, ';');
        let nl = newline_text(indent, depth);
        assert(out =~= g + nl);
        lemma_unquoted_statements_trim(parts, indent, depth);
        let q1 = trimmed(parts[0]);
        let lp = line_pieces(parts, indent, depth + 1);
        let qq = joined(lp.update(0, q1), ';', Seq::empty());
        let _ = lemma_trimmed_shape(parts[0]);
        lemma_quote_wrap_of_prefix(q1, qq);
        assert(trimmed(out) == qq);
        assert(unwrap_value(qq) == qq);
        assert(Seq::<char>::empty() + qq + Seq::<char>::empty() =~= qq);
        assert(qq.len() > 0 && !is_whitespace(qq[0])) by {
            assert(qq[0] == qq.subrange(0, q1.len() as int)[0]);
        }
        lemma_joined_ends_with_sep(lp.update(0, q1), ';');
        lemma_trimmed_core(Seq::empty(), qq, Seq::empty());
        assert(classify_inner(qq, qq) == (false, false));
        lemma_firsts_split_again(parts, indent, depth);
        let again = non_empty(split_top_level(qq, seps));
        assert(e + g + nl + e =~= out);
        assert(formatted_value(out, indent, depth, line_width) == if again.len() <= 1
            && crate::text::utf8_len(qq) <= line_width {
            qq
        } else {
            e + item_lines(again, indent, depth + 1, ';') + nl + e
        });
    }
}

} // verus!
