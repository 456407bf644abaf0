//! Collecting documentation fragments into lines, and normalizing them
//! into one string.

use vstd::prelude::*;

verus! {

/// The characters that `char::is_ascii_whitespace` accepts.
pub open spec fn is_ascii_ws(c: char) -> bool {
    c == ' ' || c == '\t' || c == '\n' || c == '\x0C' || c == '\r'
}

/// `s` without its leading ASCII whitespace.
pub open spec fn trim_start(s: Seq<char>) -> Seq<char>
    decreases s.len(),
{
    if s.len() > 0 && is_ascii_ws(s[0]) {
        trim_start(s.drop_first())
    } else {
        s
    }
}

/// `s` without its trailing ASCII whitespace.
pub open spec fn trim_end(s: Seq<char>) -> Seq<char>
    decreases s.len(),
{
    if s.len() > 0 && is_ascii_ws(s.last()) {
        trim_end(s.drop_last())
    } else {
        s
    }
}

/// `s` with leading and trailing ASCII whitespace removed.
pub open spec fn trimmed(s: Seq<char>) -> Seq<char> {
    trim_end(trim_start(s))
}

/// A line that starts and ends with something other than whitespace
/// (or is empty).
pub open spec fn is_trimmed_line(s: Seq<char>) -> bool {
    s.len() > 0 ==> !is_ascii_ws(s[0]) && !is_ascii_ws(s.last())
}

/// The pieces of `s` between newline characters; always at least one.
pub open spec fn split_nl(s: Seq<char>) -> Seq<Seq<char>>
    decreases s.len(),
{
    if s.len() == 0 {
        seq![Seq::<char>::empty()]
    } else {
        let prev = split_nl(s.drop_last());
        if s.last() == '\n' {
            prev.push(Seq::<char>::empty())
        } else {
            prev.update(prev.len() - 1, prev.last().push(s.last()))
        }
    }
}

/// The lines of all fragments, in order.
pub open spec fn collect_lines(frags: Seq<Seq<char>>) -> Seq<Seq<char>>
    decreases frags.len(),
{
    if frags.len() == 0 {
        Seq::empty()
    } else {
        collect_lines(frags.drop_last()) + split_nl(frags.last())
    }
}

/// The lines joined with a newline between each two.
pub open spec fn join_nl(ls: Seq<Seq<char>>) -> Seq<char>
    decreases ls.len(),
{
    if ls.len() == 0 {
        Seq::empty()
    } else if ls.len() == 1 {
        ls[0]
    } else {
        join_nl(ls.drop_last()) + seq!['\n'] + ls.last()
    }
}

/// Each line trimmed when `trim` holds, as it is otherwise.
pub open spec fn policy_lines(ls: Seq<Seq<char>>, trim: bool) -> Seq<Seq<char>> {
    if trim {
        ls.map_values(|l: Seq<char>| trimmed(l))
    } else {
        ls
    }
}

/// The normalized documentation of a set of fragments: `None` when there
/// is no fragment, else the lines of all fragments, each trimmed when
/// `trim` holds, joined by newlines.
pub open spec fn normalized(frags: Seq<Seq<char>>, trim: bool) -> Option<Seq<char>> {
    if frags.len() == 0 {
        None
    } else {
        Some(join_nl(policy_lines(collect_lines(frags), trim)))
    }
}

/// Whether `c` is ASCII whitespace.
pub fn is_space(c: char) -> (r: bool)
    ensures
        r == is_ascii_ws(c),
{
    c == ' ' || c == '\t' || c == '\n' || c == '\x0C' || c == '\r'
}

/// One line with its leading and trailing ASCII whitespace removed.
pub fn trim_line(s: &str) -> (r: String)
    ensures
        r@ == trimmed(s@),
{
    let n = s.unicode_len();
    let mut i: usize = 0;
    assert(s@.subrange(0, n as int) =~= s@);
    while i < n && is_space(s.get_char(i))
        invariant
            i <= n,
            n == s@.len(),
            trim_start(s@) == trim_start(s@.subrange(i as int, n as int)),
        decreases n - i,
    {
        assert(s@.subrange(i as int, n as int).drop_first() =~= s@.subrange(i + 1, n as int));
        i += 1;
    }
    assert(trim_start(s@) == s@.subrange(i as int, n as int));
    let mut j: usize = n;
    while j > i && is_space(s.get_char(j - 1))
        invariant
            i <= j <= n,
            n == s@.len(),
            trim_end(s@.subrange(i as int, n as int)) == trim_end(s@.subrange(i as int, j as int)),
        decreases j,
    {
        assert(s@.subrange(i as int, j as int).drop_last() =~= s@.subrange(i as int, j - 1));
        j -= 1;
    }
    assert(trim_end(s@.subrange(i as int, j as int)) == s@.subrange(i as int, j as int));
    String::from_str(s.substring_char(i, j))
}

proof fn lemma_deep_view_push(before: Seq<Seq<char>>, after: Seq<Seq<char>>, x: Seq<char>)
    requires
        after.len() == before.len() + 1,
        forall|k: int| 0 <= k < before.len() ==> after[k] == before[k],
        after[before.len() as int] == x,
    ensures
        after == before.push(x),
{
    assert(after =~= before.push(x));
}

/// Appends the newline-separated pieces of `s` to `out`.
pub fn push_lines(out: &mut Vec<String>, s: &str)
    ensures
        final(out).deep_view() == old(out).deep_view() + split_nl(s@),
{
    let ghost base = out.deep_view();
    let ghost mut done: Seq<Seq<char>> = Seq::empty();
    let n = s.unicode_len();
    let mut start: usize = 0;
    let mut i: usize = 0;
    assert(s@.subrange(0, 0) =~= Seq::<char>::empty());
    assert(base + done =~= base);
    while i < n
        invariant
            start <= i <= n,
            n == s@.len(),
            out.deep_view() == base + done,
            split_nl(s@.subrange(0, i as int)) == done.push(s@.subrange(start as int, i as int)),
        decreases n - i,
    {
        let c = s.get_char(i);
        assert(s@.subrange(0, i + 1).drop_last() =~= s@.subrange(0, i as int));
        if c == '\n' {
            let piece = String::from_str(s.substring_char(start, i));
            let ghost pv = piece@;
            let ghost before = out.deep_view();
            out.push(piece);
            proof {
                lemma_deep_view_push(before, out.deep_view(), pv);
                done = done.push(pv);
                assert(out.deep_view() =~= base + done);
                assert(s@.subrange(i + 1, i + 1) =~= Seq::<char>::empty());
            }
            start = i + 1;
        } else {
            assert(s@.subrange(start as int, i as int).push(c) =~= s@.subrange(start as int, i + 1));
        }
        i += 1;
    }
    let piece = String::from_str(s.substring_char(start, n));
    let ghost pv = piece@;
    let ghost before = out.deep_view();
    out.push(piece);
    proof {
        lemma_deep_view_push(before, out.deep_view(), pv);
        assert(s@.subrange(0, n as int) =~= s@);
        assert(out.deep_view() =~= base + done.push(pv));
        assert(base + done.push(pv) =~= base + split_nl(s@));
    }
}

/// The lines of all fragments, in order.
pub fn collect(frags: &Vec<String>) -> (r: Vec<String>)
    ensures
        r.deep_view() == collect_lines(frags.deep_view()),
{
    let mut out: Vec<String> = Vec::new();
    let mut k: usize = 0;
    assert(frags.deep_view().take(0) =~= Seq::<Seq<char>>::empty());
    assert(out.deep_view() =~= Seq::<Seq<char>>::empty());
    while k < frags.len()
        invariant
            k <= frags.len(),
            out.deep_view() == collect_lines(frags.deep_view().take(k as int)),
        decreases frags.len() - k,
    {
        push_lines(&mut out, frags[k].as_str());
        assert(frags.deep_view().take(k + 1).drop_last() =~= frags.deep_view().take(k as int));
        k += 1;
    }
    assert(frags.deep_view().take(k as int) =~= frags.deep_view());
    out
}

/// The lines, each trimmed when `trim` holds, joined by newlines.
pub fn join(lines: &Vec<String>, trim: bool) -> (r: String)
    ensures
        r@ == join_nl(policy_lines(lines.deep_view(), trim)),
{
    let ghost ls = policy_lines(lines.deep_view(), trim);
    let mut r = String::new();
    let mut k: usize = 0;
    assert(ls.take(0) =~= Seq::<Seq<char>>::empty());
    while k < lines.len()
        invariant
            k <= lines.len(),
            ls == policy_lines(lines.deep_view(), trim),
            ls.len() == lines.len(),
            r@ == join_nl(ls.take(k as int)),
        decreases lines.len() - k,
    {
        let ghost prev = r@;
        let ghost line = ls[k as int];
        assert(lines.deep_view()[k as int] == lines@[k as int]@);
        if k > 0 {
            let nl = "\n";
            proof {
                reveal_strlit("\n");
            }
            assert(nl@ =~= seq!['\n']);
            r.append(nl);
        }
        if trim {
            let t = trim_line(lines[k].as_str());
            r.append(t.as_str());
        } else {
            r.append(lines[k].as_str());
        }
        assert(ls.take(k + 1).drop_last() =~= ls.take(k as int));
        assert(ls.take(k + 1).last() == line);
        if k == 0 {
            assert(r@ =~= line);
        } else {
            assert(r@ =~= prev + seq!['\n'] + line);
        }
        assert(r@ =~= join_nl(ls.take(k + 1)));
        k += 1;
    }
    assert(ls.take(k as int) =~= ls);
    r
}

/// The normalized documentation of the fragments (see `normalized`).
pub fn normalize(frags: &Vec<String>, trim: bool) -> (r: Option<String>)
    ensures
        r.deep_view() == normalized(frags.deep_view(), trim),
{
    if frags.len() == 0 {
        None
    } else {
        let lines = collect(frags);
        Some(join(&lines, trim))
    }
}

proof fn lemma_trim_start(s: Seq<char>)
    ensures
        trim_start(s).len() <= s.len(),
        forall|i: int|
            0 <= i < trim_start(s).len() ==> #[trigger] trim_start(s)[i] == s[i + s.len()
                - trim_start(s).len()],
        trim_start(s).len() > 0 ==> !is_ascii_ws(trim_start(s)[0]),
    decreases s.len(),
{
    if s.len() > 0 && is_ascii_ws(s[0]) {
        lemma_trim_start(s.drop_first());
    }
}

proof fn lemma_trim_end(s: Seq<char>)
    ensures
        trim_end(s).len() <= s.len(),
        forall|i: int| 0 <= i < trim_end(s).len() ==> #[trigger] trim_end(s)[i] == s[i],
        trim_end(s).len() > 0 ==> !is_ascii_ws(trim_end(s).last()),
    decreases s.len(),
{
    if s.len() > 0 && is_ascii_ws(s.last()) {
        lemma_trim_end(s.drop_last());
    }
}

proof fn lemma_trimmed(s: Seq<char>)
    ensures
        is_trimmed_line(trimmed(s)),
        !s.contains('\n') ==> !trimmed(s).contains('\n'),
{
    let ts = trim_start(s);
    lemma_trim_start(s);
    lemma_trim_end(ts);
    let t = trimmed(s);
    if t.len() > 0 {
        assert(t[0] == ts[0]);
    }
    if !s.contains('\n') && t.contains('\n') {
        let j = choose|j: int| 0 <= j < t.len() && t[j] == '\n';
        assert(t[j] == ts[j]);
        assert(s[j + s.len() - ts.len()] == '\n');
    }
}

proof fn lemma_split_no_nl(s: Seq<char>)
    ensures
        split_nl(s).len() >= 1,
        forall|i: int| 0 <= i < split_nl(s).len() ==> !(#[trigger] split_nl(s)[i]).contains('\n'),
    decreases s.len(),
{
    if s.len() > 0 {
        let prev = split_nl(s.drop_last());
        lemma_split_no_nl(s.drop_last());
        if s.last() != '\n' {
            let x = prev.last().push(s.last());
            if x.contains('\n') {
                let j = choose|j: int| 0 <= j < x.len() && x[j] == '\n';
                assert(j < prev.last().len());
                assert(prev[prev.len() - 1].contains('\n'));
            }
        }
    }
}

proof fn lemma_collect_no_nl(frags: Seq<Seq<char>>)
    ensures
        frags.len() > 0 ==> collect_lines(frags).len() >= 1,
        forall|i: int|
            0 <= i < collect_lines(frags).len() ==> !(#[trigger] collect_lines(frags)[i]).contains(
                '\n',
            ),
    decreases frags.len(),
{
    if frags.len() > 0 {
        lemma_collect_no_nl(frags.drop_last());
        lemma_split_no_nl(frags.last());
        let a = collect_lines(frags.drop_last());
        let b = split_nl(frags.last());
        assert forall|i: int| 0 <= i < (a + b).len() implies !(#[trigger] (a + b)[i]).contains(
            '\n',
        ) by {
            if i >= a.len() {
                assert((a + b)[i] == b[i - a.len()]);
            }
        }
    }
}

/// With trimming on, the normalized documentation of one or more fragments
/// is a sequence of lines joined by newlines, where no line holds a newline
/// and none starts or ends with ASCII whitespace.
pub proof fn lemma_trimmed_output_lines(frags: Seq<Seq<char>>)
    requires
        frags.len() >= 1,
    ensures
        exists|ls: Seq<Seq<char>>|
            normalized(frags, true) == Some(join_nl(ls)) && forall|i: int|
                0 <= i < ls.len() ==> is_trimmed_line(#[trigger] ls[i]) && !ls[i].contains('\n'),
{
    let raw = collect_lines(frags);
    let ls = policy_lines(raw, true);
    lemma_collect_no_nl(frags);
    assert forall|i: int| 0 <= i < ls.len() implies is_trimmed_line(#[trigger] ls[i])
        && !ls[i].contains('\n') by {
        lemma_trimmed(raw[i]);
    }
    assert(normalized(frags, true) == Some(join_nl(ls)));
}

proof fn lemma_join_push(p: Seq<Seq<char>>, c: char)
    requires
        p.len() >= 1,
    ensures
        join_nl(p.update(p.len() - 1, p.last().push(c))) == join_nl(p).push(c),
{
    let q = p.update(p.len() - 1, p.last().push(c));
    if p.len() > 1 {
        assert(q.drop_last() =~= p.drop_last());
        assert(join_nl(q) =~= join_nl(p).push(c));
    }
}

proof fn lemma_join_split(s: Seq<char>)
    ensures
        join_nl(split_nl(s)) == s,
    decreases s.len(),
{
    if s.len() == 0 {
    } else {
        let prev = split_nl(s.drop_last());
        lemma_join_split(s.drop_last());
        lemma_split_no_nl(s.drop_last());
        if s.last() == '\n' {
            assert(prev.push(Seq::<char>::empty()).drop_last() =~= prev);
            assert(join_nl(split_nl(s)) =~= s);
        } else {
            lemma_join_push(prev, s.last());
            assert(join_nl(split_nl(s)) =~= s);
        }
    }
}

proof fn lemma_join_append(a: Seq<Seq<char>>, b: Seq<Seq<char>>)
    requires
        a.len() >= 1,
        b.len() >= 1,
    ensures
        join_nl(a + b) == join_nl(a) + seq!['\n'] + join_nl(b),
    decreases b.len(),
{
    if b.len() == 1 {
        assert((a + b).drop_last() =~= a);
        assert(join_nl(a + b) =~= join_nl(a) + seq!['\n'] + join_nl(b));
    } else {
        assert((a + b).drop_last() =~= a + b.drop_last());
        lemma_join_append(a, b.drop_last());
        assert(join_nl(a + b) =~= join_nl(a) + seq!['\n'] + join_nl(b));
    }
}

/// With trimming off, the normalized documentation of one or more fragments
/// is exactly the fragments joined by newlines: every character is kept.
pub proof fn lemma_untrimmed_is_concatenation(frags: Seq<Seq<char>>)
    requires
        frags.len() >= 1,
    ensures
        normalized(frags, false) == Some(join_nl(frags)),
    decreases frags.len(),
{
    lemma_split_no_nl(frags.last());
    lemma_join_split(frags.last());
    if frags.len() == 1 {
        assert(collect_lines(frags) =~= split_nl(frags.last()));
    } else {
        lemma_untrimmed_is_concatenation(frags.drop_last());
        lemma_collect_no_nl(frags.drop_last());
        lemma_join_append(collect_lines(frags.drop_last()), split_nl(frags.last()));
    }
}

} // verus!
