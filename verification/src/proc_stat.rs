//! The thread count in a process's stat record, as Linux and Android report
//! it in `/proc/<pid>/stat`.
//!
//! The record is `pid (comm) state ppid ...`, fields separated by white space.
//! The command name may itself hold spaces and parentheses, so the fields are
//! counted from the text after the last `)`. The thread count is the 20th
//! field of the record, the 18th after the pid and the command name.
use vstd::prelude::*;

verus! {

/// Index of the thread count among the fields that follow the command name.
pub const THREADS_FIELD: usize = 17;

/// What `char::is_whitespace` accepts: the characters with the Unicode
/// `White_Space` property.
pub open spec fn white_space(c: char) -> bool {
    let u = c as u32;
    ||| 0x09 <= u <= 0x0d
    ||| u == 0x20
    ||| u == 0x85
    ||| u == 0xa0
    ||| u == 0x1680
    ||| 0x2000 <= u <= 0x200a
    ||| u == 0x2028
    ||| u == 0x2029
    ||| u == 0x202f
    ||| u == 0x205f
    ||| u == 0x3000
}

/// Where the text after the last `)` of `s` begins; 0 when `s` holds no `)`.
/// `s.skip(tail_start(s))` is the first piece that `str::rsplit(')')` yields.
pub open spec fn tail_start(s: Seq<char>) -> int
    decreases s.len(),
{
    if s.len() == 0 {
        0
    } else if s.last() == ')' {
        s.len() as int
    } else {
        tail_start(s.drop_last())
    }
}

/// Number of characters before the first white space of `s` (or its end).
pub open spec fn word_len(s: Seq<char>) -> nat
    decreases s.len(),
{
    if s.len() == 0 || white_space(s[0]) {
        0
    } else {
        1 + word_len(s.drop_first())
    }
}

/// The maximal runs of characters other than white space, in order: what
/// `str::split_whitespace` yields.
pub open spec fn words(s: Seq<char>) -> Seq<Seq<char>>
    decreases s.len(),
{
    if s.len() == 0 {
        seq![]
    } else if white_space(s[0]) {
        words(s.drop_first())
    } else {
        proof {
            lemma_word_len_bounds(s);
        }
        seq![s.take(word_len(s) as int)] + words(s.skip(word_len(s) as int))
    }
}

pub open spec fn is_digit(c: char) -> bool {
    '0' <= c <= '9'
}

/// Value of a decimal numeral, most significant digit first.
pub open spec fn decimal_value(ds: Seq<char>) -> int
    decreases ds.len(),
{
    if ds.len() == 0 {
        0
    } else {
        decimal_value(ds.drop_last()) * 10 + (ds.last() as int - '0' as int)
    }
}

/// The digits of an unsigned decimal numeral: one leading `+` is dropped.
pub open spec fn unsigned_digits(f: Seq<char>) -> Seq<char> {
    if f.len() > 0 && f[0] == '+' {
        f.drop_first()
    } else {
        f
    }
}

/// What parsing `f` as a `NonZeroUsize` gives: a nonempty run of decimal
/// digits, after at most one `+`, whose value is at least 1 and fits in a
/// `usize`; otherwise nothing.
pub open spec fn parse_count(f: Seq<char>) -> Option<usize> {
    let ds = unsigned_digits(f);
    if ds.len() > 0 && (forall|i: int| 0 <= i < ds.len() ==> #[trigger] is_digit(ds[i]))
        && 0 < decimal_value(ds) <= usize::MAX {
        Some(decimal_value(ds) as usize)
    } else {
        None
    }
}

/// The thread count that the stat record `s` reports, if it reports one.
pub open spec fn stat_thread_count(s: Seq<char>) -> Option<usize> {
    let fields = words(s.skip(tail_start(s)));
    if fields.len() > THREADS_FIELD {
        parse_count(fields[THREADS_FIELD as int])
    } else {
        None
    }
}

pub proof fn lemma_word_len_bounds(s: Seq<char>)
    ensures
        word_len(s) <= s.len(),
        s.len() > 0 && !white_space(s[0]) ==> word_len(s) >= 1,
    decreases s.len(),
{
    if s.len() > 0 && !white_space(s[0]) {
        lemma_word_len_bounds(s.drop_first());
    }
}

/// A run of `m` characters other than white space, ended by white space or by
/// the end of `s`, is the first word of `s`.
proof fn lemma_word_len_is(s: Seq<char>, m: int)
    requires
        0 <= m <= s.len(),
        forall|t: int| 0 <= t < m ==> !white_space(#[trigger] s[t]),
        m == s.len() || white_space(s[m]),
    ensures
        word_len(s) == m,
    decreases m,
{
    if m > 0 {
        lemma_word_len_is(s.drop_first(), m - 1);
    }
}

/// Appending a digit to a numeral multiplies its value by ten and adds the digit.
proof fn lemma_decimal_push(s: Seq<char>, a: int, i: int)
    requires
        0 <= a <= i < s.len(),
    ensures
        decimal_value(s.subrange(a, i + 1)) == decimal_value(s.subrange(a, i)) * 10 + (s[i] as int
            - '0' as int),
{
    assert(s.subrange(a, i + 1).drop_last() =~= s.subrange(a, i));
}

/// A numeral of digits is worth at least any of its prefixes.
proof fn lemma_decimal_prefix(ds: Seq<char>, m: int)
    requires
        0 <= m <= ds.len(),
        forall|i: int| 0 <= i < ds.len() ==> #[trigger] is_digit(ds[i]),
    ensures
        0 <= decimal_value(ds.take(m)) <= decimal_value(ds),
    decreases ds.len(),
{
    if ds.len() > 0 {
        let p = ds.drop_last();
        assert forall|i: int| 0 <= i < p.len() implies #[trigger] is_digit(p[i]) by {
            assert(is_digit(ds[i]));
        }
        if m == ds.len() {
            assert(ds.take(m) =~= ds);
            lemma_decimal_prefix(p, 0);
            assert(is_digit(ds[ds.len() - 1]));
        } else {
            lemma_decimal_prefix(p, m);
            assert(p.take(m) =~= ds.take(m));
            lemma_decimal_prefix(p, p.len() as int);
            assert(p.take(p.len() as int) =~= p);
            assert(is_digit(ds[ds.len() - 1]));
        }
    } else {
        assert(ds.take(m) =~= ds);
    }
}

/// Where the text after `head` holds no `)`, it begins right after `head`.
proof fn lemma_tail_start_after(head: Seq<char>, tail: Seq<char>)
    requires
        head.len() > 0,
        head.last() == ')',
        forall|i: int| 0 <= i < tail.len() ==> tail[i] != ')',
    ensures
        tail_start(head + tail) == head.len(),
    decreases tail.len(),
{
    if tail.len() == 0 {
        assert(head + tail =~= head);
    } else {
        let t = tail.drop_last();
        assert((head + tail).drop_last() =~= head + t);
        assert(tail[tail.len() - 1] != ')');
        lemma_tail_start_after(head, t);
    }
}

/// The pid and the command name cannot sway the count: two records that
/// differ only up to their last `)` report the same thread count.
pub proof fn law_command_name_is_skipped(name1: Seq<char>, name2: Seq<char>, rest: Seq<char>)
    requires
        forall|i: int| 0 <= i < rest.len() ==> rest[i] != ')',
    ensures
        stat_thread_count(name1.push(')') + rest) == stat_thread_count(name2.push(')') + rest),
{
    lemma_tail_start_after(name1.push(')'), rest);
    lemma_tail_start_after(name2.push(')'), rest);
    assert((name1.push(')') + rest).skip(name1.len() + 1int) =~= rest);
    assert((name2.push(')') + rest).skip(name2.len() + 1int) =~= rest);
}

/// The fields `ws`, each preceded by one space.
pub open spec fn spaced(ws: Seq<Seq<char>>) -> Seq<char>
    decreases ws.len(),
{
    if ws.len() == 0 {
        seq![]
    } else {
        seq![' '] + ws[0] + spaced(ws.drop_first())
    }
}

/// A field as a record holds it: some characters, none of them white space
/// or `)`.
pub open spec fn is_field(f: Seq<char>) -> bool {
    f.len() > 0 && forall|i: int| 0 <= i < f.len() ==> !white_space(#[trigger] f[i]) && f[i] != ')'
}

proof fn lemma_tail_start_bounds(s: Seq<char>)
    ensures
        0 <= tail_start(s) <= s.len(),
    decreases s.len(),
{
    if s.len() > 0 && s.last() != ')' {
        lemma_tail_start_bounds(s.drop_last());
    }
}

/// Text without `)` after `s` does not move the start of its tail.
proof fn lemma_tail_start_extend(s: Seq<char>, m: Seq<char>)
    requires
        forall|i: int| 0 <= i < m.len() ==> m[i] != ')',
    ensures
        tail_start(s + m) == tail_start(s),
    decreases m.len(),
{
    if m.len() == 0 {
        assert(s + m =~= s);
    } else {
        assert((s + m).drop_last() =~= s + m.drop_last());
        assert(m[m.len() - 1] != ')');
        lemma_tail_start_extend(s, m.drop_last());
    }
}

proof fn lemma_word_len_concat(a: Seq<char>, b: Seq<char>)
    requires
        b.len() == 0 || white_space(b[0]),
    ensures
        word_len(a + b) == word_len(a),
    decreases a.len(),
{
    if a.len() == 0 {
        assert(a + b =~= b);
    } else if !white_space(a[0]) {
        assert((a + b).drop_first() =~= a.drop_first() + b);
        lemma_word_len_concat(a.drop_first(), b);
    }
}

/// Words of text followed by text that starts with white space are the words
/// of the one, then of the other.
proof fn lemma_words_concat(a: Seq<char>, b: Seq<char>)
    requires
        b.len() == 0 || white_space(b[0]),
    ensures
        words(a + b) == words(a) + words(b),
    decreases a.len(),
{
    if a.len() == 0 {
        assert(a + b =~= b);
        assert(words(a) =~= Seq::<Seq<char>>::empty());
        assert(words(a) + words(b) =~= words(b));
    } else if white_space(a[0]) {
        assert((a + b).drop_first() =~= a.drop_first() + b);
        lemma_words_concat(a.drop_first(), b);
    } else {
        lemma_word_len_concat(a, b);
        lemma_word_len_bounds(a);
        let n = word_len(a) as int;
        assert((a + b).take(n) =~= a.take(n));
        assert((a + b).skip(n) =~= a.skip(n) + b);
        lemma_words_concat(a.skip(n), b);
        assert(words(a + b) =~= words(a) + words(b));
    }
}

proof fn lemma_spaced_words(ws: Seq<Seq<char>>)
    requires
        forall|i: int| 0 <= i < ws.len() ==> is_field(#[trigger] ws[i]),
    ensures
        words(spaced(ws)) == ws,
        forall|i: int| 0 <= i < spaced(ws).len() ==> spaced(ws)[i] != ')',
        spaced(ws).len() == 0 || white_space(spaced(ws)[0]),
    decreases ws.len(),
{
    if ws.len() > 0 {
        let rest = ws.drop_first();
        assert forall|i: int| 0 <= i < rest.len() implies is_field(#[trigger] rest[i]) by {
            assert(rest[i] == ws[i + 1]);
        }
        lemma_spaced_words(rest);
        let f = ws[0];
        assert(is_field(f));
        let r = spaced(rest);
        let t = f + r;
        let s = spaced(ws);
        assert(s =~= seq![' '] + t);
        assert(s.drop_first() =~= t);
        assert(white_space(' '));
        lemma_words_concat(f, r);
        lemma_word_len_is(f, f.len() as int);
        assert(f.take(f.len() as int) =~= f);
        assert(f.skip(f.len() as int) =~= Seq::<char>::empty());
        assert(words(Seq::<char>::empty()) =~= Seq::<Seq<char>>::empty());
        assert(words(f) =~= seq![f]);
        assert(words(s) =~= ws);
        assert forall|i: int| 0 <= i < s.len() implies s[i] != ')' by {
            if i >= 1 && i < 1 + f.len() {
                assert(s[i] == f[i - 1]);
            } else if i >= 1 + f.len() {
                assert(s[i] == r[i - 1 - f.len()]);
            }
        }
    }
}

/// A record made of any pid and command name, a `)`, then fields separated by
/// white space, reports its field of index `THREADS_FIELD` read as a
/// `NonZeroUsize`, however many fields there are.
pub proof fn law_threads_field_is_read(head: Seq<char>, fields: Seq<Seq<char>>)
    requires
        fields.len() > THREADS_FIELD,
        forall|i: int| 0 <= i < fields.len() ==> is_field(#[trigger] fields[i]),
    ensures
        stat_thread_count(head.push(')') + spaced(fields)) == parse_count(
            fields[THREADS_FIELD as int],
        ),
{
    lemma_spaced_words(fields);
    lemma_tail_start_after(head.push(')'), spaced(fields));
    assert((head.push(')') + spaced(fields)).skip(head.len() + 1int) =~= spaced(fields));
}

/// Fields after the thread count do not change it: text without `)` that
/// starts with white space, appended to a record that holds the thread
/// field, leaves the count as it was.
pub proof fn law_more_fields_keep_count(s: Seq<char>, more: Seq<char>)
    requires
        words(s.skip(tail_start(s))).len() > THREADS_FIELD,
        more.len() == 0 || white_space(more[0]),
        forall|i: int| 0 <= i < more.len() ==> more[i] != ')',
    ensures
        stat_thread_count(s + more) == stat_thread_count(s),
{
    lemma_tail_start_extend(s, more);
    lemma_tail_start_bounds(s);
    let t = tail_start(s);
    assert((s + more).skip(t) =~= s.skip(t) + more);
    lemma_words_concat(s.skip(t), more);
    let w = words(s.skip(t));
    assert((w + words(more))[THREADS_FIELD as int] == w[THREADS_FIELD as int]);
}

/// A single digit other than zero is read as its value; zero alone is no count.
pub proof fn law_single_digit(c: char)
    requires
        '0' <= c <= '9',
    ensures
        c == '0' ==> parse_count(seq![c]) is None,
        c != '0' ==> parse_count(seq![c]) == Some((c as int - '0' as int) as usize),
{
    assert(seq![c].drop_last() =~= Seq::<char>::empty());
    assert(decimal_value(Seq::<char>::empty()) == 0);
    assert(unsigned_digits(seq![c]) =~= seq![c]);
    assert(is_digit(seq![c][0]));
}

/// One more digit multiplies the value read by ten and adds the digit, while
/// it fits in a `usize`; past that, nothing is read.
pub proof fn law_next_digit(ds: Seq<char>, c: char, v: usize)
    requires
        parse_count(ds) == Some(v),
        '0' <= c <= '9',
    ensures
        v * 10 + (c as int - '0' as int) <= usize::MAX ==> parse_count(ds.push(c)) == Some(
            (v * 10 + (c as int - '0' as int)) as usize,
        ),
        v * 10 + (c as int - '0' as int) > usize::MAX ==> parse_count(ds.push(c)) is None,
{
    let d = unsigned_digits(ds);
    let e = unsigned_digits(ds.push(c));
    assert(e =~= d.push(c));
    assert(e.drop_last() =~= d);
    assert forall|i: int| 0 <= i < e.len() implies #[trigger] is_digit(e[i]) by {
        if i < d.len() {
            assert(e[i] == d[i]);
            assert(is_digit(d[i]));
        }
    }
}

proof fn lemma_leading_zero_value(ds: Seq<char>)
    ensures
        decimal_value(seq!['0'] + ds) == decimal_value(ds),
    decreases ds.len(),
{
    if ds.len() == 0 {
        assert((seq!['0'] + ds).drop_last() =~= Seq::<char>::empty());
        assert((seq!['0'] + ds).last() == '0');
        assert(decimal_value(Seq::<char>::empty()) == 0);
    } else {
        assert((seq!['0'] + ds).drop_last() =~= seq!['0'] + ds.drop_last());
        assert((seq!['0'] + ds).last() == ds.last());
        lemma_leading_zero_value(ds.drop_last());
    }
}

/// Leading zeros do not change the number read.
pub proof fn law_leading_zero(ds: Seq<char>)
    requires
        ds.len() > 0,
        forall|i: int| 0 <= i < ds.len() ==> #[trigger] is_digit(ds[i]),
    ensures
        parse_count(seq!['0'] + ds) == parse_count(ds),
{
    lemma_leading_zero_value(ds);
    let z = seq!['0'] + ds;
    assert(is_digit(ds[0]));
    assert(unsigned_digits(z) =~= z);
    assert(unsigned_digits(ds) =~= ds);
    assert forall|i: int| 0 <= i < z.len() implies #[trigger] is_digit(z[i]) by {
        if i > 0 {
            assert(z[i] == ds[i - 1]);
        }
    }
}

/// A leading `+` is accepted before digits; a leading `-`, or any other
/// character that is no digit, gives nothing.
pub proof fn law_signs(ds: Seq<char>)
    requires
        ds.len() > 0,
        forall|i: int| 0 <= i < ds.len() ==> #[trigger] is_digit(ds[i]),
    ensures
        parse_count(seq!['+'] + ds) == parse_count(ds),
        parse_count(seq!['-'] + ds) is None,
        parse_count(seq!['+']) is None,
        parse_count(Seq::<char>::empty()) is None,
{
    assert((seq!['+'] + ds).drop_first() =~= ds);
    assert(is_digit(ds[0]));
    assert(unsigned_digits(seq!['-'] + ds) =~= seq!['-'] + ds);
    assert(!is_digit((seq!['-'] + ds)[0]));
    assert(unsigned_digits(seq!['+']) =~= Seq::<char>::empty());
}

/// Exactly `char::is_whitespace`.
pub fn is_white_space(c: char) -> (r: bool)
    ensures
        r == white_space(c),
{
    let u = c as u32;
    (0x09 <= u && u <= 0x0d) || u == 0x20 || u == 0x85 || u == 0xa0 || u == 0x1680 || (0x2000 <= u
        && u <= 0x200a) || u == 0x2028 || u == 0x2029 || u == 0x202f || u == 0x205f || u == 0x3000
}

/// The characters of `s`, in order.
pub fn chars_of(s: &str) -> (r: Vec<char>)
    ensures
        r@ == s@,
{
    let mut v: Vec<char> = Vec::new();
    for c in it: s.chars()
        invariant
            v@ == it.seq().take(it.index() as int),
    {
        v.push(c);
    }
    v
}

/// Index just past the last `)` of `cs`, or 0 when there is none.
pub fn find_tail_start(cs: &Vec<char>) -> (r: usize)
    ensures
        r == tail_start(cs@),
        r <= cs.len(),
{
    let mut i = cs.len();
    assert(cs@.take(i as int) =~= cs@);
    while i > 0
        invariant
            i <= cs.len(),
            tail_start(cs@) == tail_start(cs@.take(i as int)),
        decreases i,
    {
        assert(cs@.take(i as int).drop_last() =~= cs@.take(i - 1));
        if cs[i - 1] == ')' {
            return i;
        }
        i -= 1;
    }
    i
}

/// Bounds of the word of index `n` among the words of `cs[from..]`.
pub fn find_word(cs: &Vec<char>, from: usize, n: usize) -> (r: Option<(usize, usize)>)
    requires
        from <= cs.len(),
    ensures
        match r {
            None => words(cs@.subrange(from as int, cs.len() as int)).len() <= n,
            Some((a, b)) => {
                &&& from <= a <= b <= cs.len()
                &&& words(cs@.subrange(from as int, cs.len() as int)).len() > n
                &&& words(cs@.subrange(from as int, cs.len() as int))[n as int] == cs@.subrange(
                    a as int,
                    b as int,
                )
            },
        },
{
    let len = cs.len();
    let ghost all = words(cs@.subrange(from as int, len as int));
    let mut i = from;
    let mut k: usize = 0;
    assert(all.skip(0) =~= all);
    loop
        invariant
            from <= i <= len,
            len == cs.len(),
            k <= n,
            k <= all.len(),
            all == words(cs@.subrange(from as int, len as int)),
            all.skip(k as int) =~= words(cs@.subrange(i as int, len as int)),
        decreases len - i,
    {
        let ghost i0 = i;
        while i < len && is_white_space(cs[i])
            invariant
                from <= i0 <= i <= len,
                len == cs.len(),
                all.skip(k as int) =~= words(cs@.subrange(i as int, len as int)),
            decreases len - i,
        {
            assert(cs@.subrange(i as int, len as int).drop_first() =~= cs@.subrange(
                i + 1,
                len as int,
            ));
            i += 1;
        }
        if i == len {
            assert(all.skip(k as int).len() == 0);
            return None;
        }
        let a = i;
        while i < len && !is_white_space(cs[i])
            invariant
                a <= i <= len,
                a < len,
                len == cs.len(),
                !white_space(cs@[a as int]),
                forall|t: int| a <= t < i ==> !white_space(#[trigger] cs@[t]),
            decreases len - i,
        {
            i += 1;
        }
        proof {
            let s = cs@.subrange(a as int, len as int);
            let m = i - a;
            assert forall|t: int| 0 <= t < m implies !white_space(#[trigger] s[t]) by {
                assert(s[t] == cs@[a + t]);
            }
            lemma_word_len_is(s, m);
            assert(s.take(m) =~= cs@.subrange(a as int, i as int));
            assert(s.skip(m) =~= cs@.subrange(i as int, len as int));
            assert(words(s) == seq![s.take(m)] + words(s.skip(m)));
            assert(all.skip(k as int)[0] == all[k as int]);
            assert(all.skip(k + 1) =~= all.skip(k as int).drop_first());
        }
        if k == n {
            return Some((a, i));
        }
        k += 1;
    }
}

/// Parses `cs[a..b]` as a `NonZeroUsize` is parsed.
pub fn parse_count_at(cs: &Vec<char>, a: usize, b: usize) -> (r: Option<usize>)
    requires
        a <= b <= cs.len(),
    ensures
        r == parse_count(cs@.subrange(a as int, b as int)),
{
    let ghost f = cs@.subrange(a as int, b as int);
    let mut i = a;
    if i < b && cs[i] == '+' {
        i += 1;
    }
    let start = i;
    assert(unsigned_digits(f) =~= cs@.subrange(start as int, b as int));
    if i == b {
        return None;
    }
    let mut v: usize = 0;
    while i < b
        invariant
            start <= i <= b <= cs.len(),
            start < b,
            f == cs@.subrange(a as int, b as int),
            unsigned_digits(f) == cs@.subrange(start as int, b as int),
            v == decimal_value(cs@.subrange(start as int, i as int)),
            forall|t: int| start <= t < i ==> #[trigger] is_digit(cs@[t]),
        decreases b - i,
    {
        let c = cs[i];
        proof {
            lemma_decimal_push(cs@, start as int, i as int);
        }
        if !('0' <= c && c <= '9') {
            let ghost ds = cs@.subrange(start as int, b as int);
            assert(!is_digit(ds[i - start]));
            assert(!is_digit(unsigned_digits(f)[i - start]));
            return None;
        }
        let d = (c as u32 - '0' as u32) as usize;
        if v > (usize::MAX - d) / 10 {
            proof {
                assert(v * 10 + d > usize::MAX) by (nonlinear_arith)
                    requires
                        v > (usize::MAX - d) / 10,
                        d <= 9,
                ;
                let ds = cs@.subrange(start as int, b as int);
                if forall|t: int| 0 <= t < ds.len() ==> #[trigger] is_digit(ds[t]) {
                    lemma_decimal_prefix(ds, i + 1 - start);
                    assert(ds.take(i + 1 - start) =~= cs@.subrange(start as int, i + 1));
                }
                assert(parse_count(f) is None);
            }
            return None;
        }
        proof {
            assert(v * 10 + d <= usize::MAX) by (nonlinear_arith)
                requires
                    v <= (usize::MAX - d) / 10,
                    d <= 9,
            ;
        }
        v = v * 10 + d;
        i += 1;
    }
    assert(forall|t: int|
        0 <= t < unsigned_digits(f).len() ==> #[trigger] unsigned_digits(f)[t] == cs@[start + t]);
    if v == 0 {
        None
    } else {
        Some(v)
    }
}

/// The thread count that the stat record `stat` reports: the field of index
/// `THREADS_FIELD` after the last `)`, parsed as a `NonZeroUsize`; `None`
/// when the record has too few fields or that field is no such number.
pub fn thread_count(stat: &str) -> (r: Option<usize>)
    ensures
        r == stat_thread_count(stat@),
        r matches Some(n) ==> n >= 1,
{
    let cs = chars_of(stat);
    let start = find_tail_start(&cs);
    assert(cs@.subrange(start as int, cs.len() as int) =~= cs@.skip(start as int));
    match find_word(&cs, start, THREADS_FIELD) {
        None => None,
        Some((a, b)) => parse_count_at(&cs, a, b),
    }
}

} // verus!
