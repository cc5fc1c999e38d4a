//! Character-level text handling: Unicode white space, trimming, line
//! splitting and the clean-up of pasted vault ciphertext.
use vstd::prelude::*;

verus! {

/// Unicode `White_Space`, the property behind `char::is_whitespace`.
pub open spec fn is_white_space(c: char) -> bool {
    let u = c as u32;
    ||| 0x9 <= u <= 0xd
    ||| u == 0x20
    ||| u == 0x85
    ||| u == 0xa0
    ||| u == 0x1680
    ||| 0x2000 <= u <= 0x200a
    ||| u == 0x2028
    ||| u == 0x2029
    ||| u == 0x202f
    ||| u == 0x205f
    ||| u == 0x3000
}

/// `s` without its leading white space.
pub open spec fn trim_start(s: Seq<char>) -> Seq<char>
    decreases s.len(),
{
    if s.len() > 0 && is_white_space(s[0]) {
        trim_start(s.drop_first())
    } else {
        s
    }
}

/// `s` without its trailing white space.
pub open spec fn trim_end(s: Seq<char>) -> Seq<char>
    decreases s.len(),
{
    if s.len() > 0 && is_white_space(s.last()) {
        trim_end(s.drop_last())
    } else {
        s
    }
}

/// `s` without leading and trailing white space (`str::trim`).
pub open spec fn trim(s: Seq<char>) -> Seq<char> {
    trim_end(trim_start(s))
}

/// The pieces of `s` between `'\n'` characters (`str::split('\n')`).
pub open spec fn split_newlines(s: Seq<char>) -> Seq<Seq<char>>
    decreases s.len(),
{
    if s.len() == 0 {
        seq![Seq::<char>::empty()]
    } else {
        let init = split_newlines(s.drop_last());
        if s.last() == '\n' {
            init.push(Seq::<char>::empty())
        } else {
            init.update(init.len() - 1, init.last().push(s.last()))
        }
    }
}

/// A line ended by `"\r\n"` loses its `'\r'`.
pub open spec fn strip_cr(line: Seq<char>) -> Seq<char> {
    if line.len() > 0 && line.last() == '\r' {
        line.drop_last()
    } else {
        line
    }
}

/// The lines of `s` as `str::lines` yields them: split at `'\n'`, a line
/// ended by `"\r\n"` without its `'\r'`, and no empty line after a final
/// line ending.
pub open spec fn text_lines(s: Seq<char>) -> Seq<Seq<char>> {
    let parts = split_newlines(s);
    let ended = parts.drop_last().map_values(|l: Seq<char>| strip_cr(l));
    if parts.last().len() == 0 {
        ended
    } else {
        ended.push(parts.last())
    }
}

/// Whether `pattern` occurs in `s` as a contiguous run.
pub open spec fn contains_seq(s: Seq<char>, pattern: Seq<char>) -> bool {
    exists|k: int| 0 <= k && k + pattern.len() <= s.len() && #[trigger] s.subrange(k, k + pattern.len()) == pattern
}

/// The tag that opens an Ansible vault variable (`my_var: !vault |`).
pub open spec fn vault_marker() -> Seq<char> {
    seq!['!', 'v', 'a', 'u', 'l', 't']
}

/// A trimmed line is kept when it is not empty and holds no vault tag.
pub open spec fn keeps_line(line: Seq<char>) -> bool {
    line.len() > 0 && !contains_seq(line, vault_marker())
}

/// Each line trimmed, then only the lines worth keeping, in order.
pub open spec fn kept_lines(lines: Seq<Seq<char>>) -> Seq<Seq<char>> {
    lines.map_values(|l: Seq<char>| trim(l)).filter(|l: Seq<char>| keeps_line(l))
}

/// The lines joined with `'\n'` between them (`[..].join("\n")`).
pub open spec fn join_lines(lines: Seq<Seq<char>>) -> Seq<char>
    decreases lines.len(),
{
    if lines.len() == 0 {
        Seq::<char>::empty()
    } else if lines.len() == 1 {
        lines[0]
    } else {
        join_lines(lines.drop_last()) + seq!['\n'] + lines.last()
    }
}

/// Pasted vault ciphertext reduced to its payload: every line trimmed,
/// empty lines and the line with the vault tag dropped, the rest joined
/// with `'\n'`.
pub open spec fn cleaned_ciphertext(s: Seq<char>) -> Seq<char> {
    join_lines(kept_lines(text_lines(s)))
}

proof fn lemma_split_nonempty(s: Seq<char>)
    ensures
        split_newlines(s).len() >= 1,
    decreases s.len(),
{
    if s.len() > 0 {
        lemma_split_nonempty(s.drop_last());
    }
}

proof fn lemma_trim_drop_space(l: Seq<char>)
    requires
        l.len() > 0,
        is_white_space(l.last()),
    ensures
        trim(l.drop_last()) == trim(l),
    decreases l.len(),
{
    if is_white_space(l[0]) {
        if l.len() == 1 {
            assert(l.drop_last() =~= Seq::<char>::empty());
            assert(l.drop_first() =~= Seq::<char>::empty());
        } else {
            assert(l.drop_last().drop_first() =~= l.drop_first().drop_last());
            lemma_trim_drop_space(l.drop_first());
        }
    } else {
        assert(l.len() >= 2);
    }
}

proof fn lemma_kept_push(lines: Seq<Seq<char>>, line: Seq<char>)
    ensures
        kept_lines(lines.push(line)) == (if keeps_line(trim(line)) {
            kept_lines(lines).push(trim(line))
        } else {
            kept_lines(lines)
        }),
{
    let f = |l: Seq<char>| trim(l);
    let mapped = lines.push(line).map_values(f);
    assert(mapped =~= lines.map_values(f).push(trim(line)));
    assert(mapped.drop_last() =~= lines.map_values(f));
    reveal(Seq::filter);
}

proof fn lemma_kept_strip_cr(lines: Seq<Seq<char>>)
    ensures
        kept_lines(lines.map_values(|l: Seq<char>| strip_cr(l))) == kept_lines(lines),
    decreases lines.len(),
{
    let g = |l: Seq<char>| strip_cr(l);
    if lines.len() == 0 {
        assert(lines.map_values(g) =~= lines);
    } else {
        let init = lines.drop_last();
        let last = lines.last();
        lemma_kept_strip_cr(init);
        assert(lines.map_values(g) =~= init.map_values(g).push(strip_cr(last)));
        assert(lines =~= init.push(last));
        lemma_kept_push(init.map_values(g), strip_cr(last));
        lemma_kept_push(init, last);
        if last.len() > 0 && last.last() == '\r' {
            lemma_trim_drop_space(last);
        }
    }
}

proof fn lemma_kept_text_lines(s: Seq<char>)
    ensures
        kept_lines(split_newlines(s)) == kept_lines(text_lines(s)),
{
    let parts = split_newlines(s);
    lemma_split_nonempty(s);
    let init = parts.drop_last();
    let last = parts.last();
    assert(parts =~= init.push(last));
    lemma_kept_push(init, last);
    lemma_kept_strip_cr(init);
    let ended = init.map_values(|l: Seq<char>| strip_cr(l));
    lemma_kept_push(ended, last);
    if last.len() == 0 {
        assert(trim(last) =~= Seq::<char>::empty());
    }
}

/// No `'\n'` in `s`.
pub open spec fn no_newline(s: Seq<char>) -> bool {
    forall|i: int| 0 <= i < s.len() ==> s[i] != '\n'
}

proof fn lemma_split_pieces_no_newline(s: Seq<char>)
    ensures
        forall|i: int| 0 <= i < split_newlines(s).len() ==> no_newline(#[trigger] split_newlines(s)[i]),
    decreases s.len(),
{
    lemma_split_nonempty(s);
    if s.len() > 0 {
        lemma_split_pieces_no_newline(s.drop_last());
        lemma_split_nonempty(s.drop_last());
        let init = split_newlines(s.drop_last());
        if s.last() != '\n' {
            let last = init.last().push(s.last());
            assert(no_newline(init[init.len() - 1]));
            assert(no_newline(last));
        }
        let parts = split_newlines(s);
        assert forall|i: int| 0 <= i < parts.len() implies no_newline(#[trigger] parts[i]) by {
            if i < init.len() - 1 {
                assert(parts[i] == init[i]);
            } else if i < init.len() {
                if s.last() == '\n' {
                    assert(parts[i] == init[i]);
                }
            }
        }
    }
}

proof fn lemma_split_no_newline(b: Seq<char>)
    requires
        no_newline(b),
    ensures
        split_newlines(b) == seq![b],
    decreases b.len(),
{
    if b.len() == 0 {
        assert(b =~= Seq::<char>::empty());
    } else {
        assert(no_newline(b.drop_last()));
        assert(b[b.len() - 1] != '\n');
        lemma_split_no_newline(b.drop_last());
        assert(b.drop_last().push(b.last()) =~= b);
        assert(seq![b.drop_last()].update(0, b.drop_last().push(b.last())) =~= seq![b]);
    }
}

proof fn lemma_split_concat(a: Seq<char>, b: Seq<char>)
    ensures
        split_newlines(a + seq!['\n'] + b) == split_newlines(a) + split_newlines(b),
    decreases b.len(),
{
    let x = a + seq!['\n'] + b;
    lemma_split_nonempty(a);
    lemma_split_nonempty(b);
    if b.len() == 0 {
        assert(x.drop_last() =~= a);
        assert(split_newlines(a).push(Seq::<char>::empty()) =~= split_newlines(a) + seq![Seq::<char>::empty()]);
    } else {
        let b0 = b.drop_last();
        assert(x.drop_last() =~= a + seq!['\n'] + b0);
        lemma_split_concat(a, b0);
        lemma_split_nonempty(b0);
        let sa = split_newlines(a);
        let sb0 = split_newlines(b0);
        if b.last() == '\n' {
            assert((sa + sb0).push(Seq::<char>::empty()) =~= sa + sb0.push(Seq::<char>::empty()));
        } else {
            let joined = sa + sb0;
            assert(joined.last() == sb0.last());
            assert(joined.update(joined.len() - 1, joined.last().push(b.last())) =~= sa + sb0.update(
                sb0.len() - 1,
                sb0.last().push(b.last()),
            ));
        }
    }
}

proof fn lemma_split_join(lines: Seq<Seq<char>>)
    requires
        lines.len() >= 1,
        forall|i: int| 0 <= i < lines.len() ==> no_newline(#[trigger] lines[i]),
    ensures
        split_newlines(join_lines(lines)) == lines,
    decreases lines.len(),
{
    if lines.len() == 1 {
        lemma_split_no_newline(lines[0]);
        assert(seq![lines[0]] =~= lines);
    } else {
        let init = lines.drop_last();
        assert forall|i: int| 0 <= i < init.len() implies no_newline(#[trigger] init[i]) by {
            assert(init[i] == lines[i]);
        }
        lemma_split_join(init);
        assert(no_newline(lines[lines.len() - 1]));
        lemma_split_concat(join_lines(init), lines.last());
        lemma_split_no_newline(lines.last());
        assert(init + seq![lines.last()] =~= lines);
    }
}

proof fn lemma_trim_start_shape(z: Seq<char>)
    ensures
        trim_start(z).len() == 0 || !is_white_space(trim_start(z)[0]),
        no_newline(z) ==> no_newline(trim_start(z)),
    decreases z.len(),
{
    if z.len() > 0 && is_white_space(z[0]) {
        lemma_trim_start_shape(z.drop_first());
        if no_newline(z) {
            assert(no_newline(z.drop_first()));
        }
    }
}

proof fn lemma_trim_end_shape(z: Seq<char>)
    ensures
        trim_end(z).len() == 0 || !is_white_space(trim_end(z).last()),
        no_newline(z) ==> no_newline(trim_end(z)),
        z.len() > 0 && !is_white_space(z[0]) ==> trim_end(z).len() > 0 && trim_end(z)[0] == z[0],
    decreases z.len(),
{
    if z.len() > 0 && is_white_space(z.last()) {
        lemma_trim_end_shape(z.drop_last());
        if no_newline(z) {
            assert(no_newline(z.drop_last()));
        }
    }
}

/// A trimmed text starts and ends with other than white space, keeps no new
/// line that was not there, and trims to itself.
proof fn lemma_trim_shape(x: Seq<char>)
    ensures
        trim(x).len() > 0 ==> !is_white_space(trim(x)[0]) && !is_white_space(trim(x).last()),
        no_newline(x) ==> no_newline(trim(x)),
        trim(trim(x)) == trim(x),
{
    let w = trim_start(x);
    lemma_trim_start_shape(x);
    lemma_trim_end_shape(w);
    let y = trim(x);
    if y.len() > 0 {
        assert(trim_start(y) == y);
        assert(trim_end(y) == y);
    }
}

proof fn lemma_kept_fixed(lines: Seq<Seq<char>>)
    requires
        forall|i: int| 0 <= i < lines.len() ==> #[trigger] trim(lines[i]) == lines[i] && keeps_line(lines[i]),
    ensures
        kept_lines(lines) == lines,
    decreases lines.len(),
{
    if lines.len() == 0 {
        reveal(Seq::filter);
        assert(lines.map_values(|l: Seq<char>| trim(l)) =~= lines);
    } else {
        let init = lines.drop_last();
        assert forall|i: int| 0 <= i < init.len() implies #[trigger] trim(init[i]) == init[i] && keeps_line(init[i]) by {
            assert(init[i] == lines[i]);
            assert(trim(lines[i]) == lines[i]);
        }
        lemma_kept_fixed(init);
        assert(trim(lines[lines.len() - 1]) == lines[lines.len() - 1]);
        lemma_kept_push(init, lines.last());
        assert(init.push(lines.last()) =~= lines);
    }
}

/// Cleaning ciphertext a second time changes nothing: the cleaned text is
/// already made of trimmed, non-empty lines without the vault tag.
pub proof fn law_cleaning_is_idempotent(s: Seq<char>)
    ensures
        cleaned_ciphertext(cleaned_ciphertext(s)) == cleaned_ciphertext(s),
{
    let lines = text_lines(s);
    let parts = split_newlines(s);
    lemma_split_nonempty(s);
    lemma_split_pieces_no_newline(s);
    assert forall|i: int| 0 <= i < lines.len() implies no_newline(#[trigger] lines[i]) by {
        if i < parts.len() - 1 {
            let p = parts[i];
            assert(no_newline(p));
            if p.len() > 0 && p.last() == '\r' {
                assert(no_newline(p.drop_last()));
            }
        } else {
            assert(lines[i] == parts.last());
        }
    }
    let f = |l: Seq<char>| trim(l);
    let pred = |l: Seq<char>| keeps_line(l);
    let mapped = lines.map_values(f);
    let kept = kept_lines(lines);
    assert forall|i: int| 0 <= i < kept.len() implies #[trigger] trim(kept[i]) == kept[i] && keeps_line(kept[i]) && no_newline(kept[i]) && kept[i].len() > 0 && !is_white_space(kept[i].last()) by {
        mapped.lemma_filter_pred(pred, i);
        assert(kept.contains(kept[i]));
        mapped.lemma_filter_contains_rev(pred, kept[i]);
        let j = choose|j: int| 0 <= j < mapped.len() && mapped[j] == kept[i];
        lemma_trim_shape(lines[j]);
    }
    let c = join_lines(kept);
    if kept.len() == 0 {
        assert(c =~= Seq::<char>::empty());
        assert(split_newlines(c) =~= seq![Seq::<char>::empty()]);
        assert(text_lines(c) =~= Seq::<Seq<char>>::empty());
        lemma_kept_fixed(Seq::<Seq<char>>::empty());
    } else {
        assert forall|i: int| 0 <= i < kept.len() implies no_newline(#[trigger] kept[i]) by {
            assert(trim(kept[i]) == kept[i]);
        }
        lemma_split_join(kept);
        let ended = kept.drop_last().map_values(|l: Seq<char>| strip_cr(l));
        assert forall|i: int| 0 <= i < ended.len() implies #[trigger] ended[i] == kept[i] by {
            assert(trim(kept[i]) == kept[i]);
            assert(!is_white_space(kept[i].last()));
        }
        assert(trim(kept[kept.len() - 1]) == kept[kept.len() - 1]);
        assert(text_lines(c) =~= kept);
        lemma_kept_fixed(kept);
    }
}

/// Text made of lines that are already trimmed (they start and end with
/// other than white space), non-empty, free of `'\n'` and of the `!vault` tag
/// comes out of cleaning as those lines joined with `'\n'`, whatever their length.
pub proof fn law_clean_lines_are_kept(lines: Seq<Seq<char>>)
    requires
        forall|i: int|
            0 <= i < lines.len() ==> {
                let l = #[trigger] lines[i];
                &&& l.len() > 0
                &&& !is_white_space(l[0])
                &&& !is_white_space(l.last())
                &&& forall|k: int| 0 <= k < l.len() ==> l[k] != '\n'
                &&& forall|k: int|
                    0 <= k && k + 6 <= l.len() ==> #[trigger] l.subrange(k, k + 6) != seq![
                        '!',
                        'v',
                        'a',
                        'u',
                        'l',
                        't',
                    ]
            },
    ensures
        cleaned_ciphertext(join_lines(lines)) == join_lines(lines),
{
    assert forall|i: int| 0 <= i < lines.len() implies #[trigger] trim(lines[i]) == lines[i]
        && keeps_line(lines[i]) && no_newline(lines[i]) by {
        let l = lines[i];
        assert(trim_start(l) == l);
        assert(trim_end(l) == l);
        if contains_seq(l, vault_marker()) {
            let k = choose|k: int| 0 <= k && k + vault_marker().len() <= l.len() && #[trigger] l.subrange(k, k + vault_marker().len()) == vault_marker();
            assert(l.subrange(k, k + 6) == seq!['!', 'v', 'a', 'u', 'l', 't']);
        }
    }
    let c = join_lines(lines);
    if lines.len() == 0 {
        assert(c =~= Seq::<char>::empty());
        assert(split_newlines(c) =~= seq![Seq::<char>::empty()]);
        assert(text_lines(c) =~= Seq::<Seq<char>>::empty());
        lemma_kept_fixed(Seq::<Seq<char>>::empty());
    } else {
        lemma_split_join(lines);
        let ended = lines.drop_last().map_values(|l: Seq<char>| strip_cr(l));
        assert forall|i: int| 0 <= i < ended.len() implies #[trigger] ended[i] == lines[i] by {
            assert(trim(lines[i]) == lines[i]);
            assert(!is_white_space(lines[i].last()));
        }
        assert(trim(lines[lines.len() - 1]) == lines[lines.len() - 1]);
        assert(text_lines(c) =~= lines);
        lemma_kept_fixed(lines);
    }
}

/// Whether `c` is Unicode white space.
pub fn is_space(c: char) -> (r: bool)
    ensures
        r == is_white_space(c),
{
    let u = c as u32;
    (0x9 <= u && u <= 0xd) || u == 0x20 || u == 0x85 || u == 0xa0 || u == 0x1680 || (0x2000 <= u
        && u <= 0x200a) || u == 0x2028 || u == 0x2029 || u == 0x202f || u == 0x205f || u == 0x3000
}

/// The characters of `s`, in order.
pub fn chars_of(s: &str) -> (v: Vec<char>)
    ensures
        v@ == s@,
{
    broadcast use vstd::string::group_string_axioms;
    let mut v: Vec<char> = Vec::new();
    for c in it: s.chars()
        invariant
            v@ == it.seq().take(it.index()),
            it.seq() == s@,
    {
        v.push(c);
    }
    v
}

/// Bounds `(lo, hi)` such that `chars[lo..hi]` is `chars[start..end]` trimmed.
pub fn trim_bounds(chars: &Vec<char>, start: usize, end: usize) -> (r: (usize, usize))
    requires
        start <= end <= chars.len(),
    ensures
        start <= r.0 <= r.1 <= end,
        chars@.subrange(r.0 as int, r.1 as int) == trim(chars@.subrange(start as int, end as int)),
{
    let mut lo = start;
    while lo < end && is_space(chars[lo])
        invariant
            start <= lo <= end <= chars.len(),
            trim_start(chars@.subrange(start as int, end as int)) == trim_start(
                chars@.subrange(lo as int, end as int),
            ),
        decreases end - lo,
    {
        assert(chars@.subrange(lo as int, end as int).drop_first() =~= chars@.subrange(
            lo + 1,
            end as int,
        ));
        lo = lo + 1;
    }
    assert(trim_start(chars@.subrange(lo as int, end as int)) == chars@.subrange(
        lo as int,
        end as int,
    ));
    let mut hi = end;
    while hi > lo && is_space(chars[hi - 1])
        invariant
            start <= lo <= hi <= end <= chars.len(),
            trim_end(chars@.subrange(lo as int, end as int)) == trim_end(
                chars@.subrange(lo as int, hi as int),
            ),
        decreases hi - lo,
    {
        assert(chars@.subrange(lo as int, hi as int).drop_last() =~= chars@.subrange(
            lo as int,
            hi - 1,
        ));
        hi = hi - 1;
    }
    (lo, hi)
}

/// `s` with leading and trailing white space removed (`str::trim`).
pub fn trim_text(s: &str) -> (r: String)
    ensures
        r@ == trim(s@),
{
    let chars = chars_of(s);
    let (lo, hi) = trim_bounds(&chars, 0, chars.len());
    assert(chars@.subrange(0, chars@.len() as int) =~= s@);
    s.substring_char(lo, hi).to_string()
}

/// Whether the vault tag starts at position `j` of `s`.
spec fn marker_at(s: Seq<char>, j: int) -> bool {
    s.subrange(j, j + 6) == vault_marker()
}

/// Whether `chars[lo..hi]` holds the vault tag.
fn contains_marker(chars: &Vec<char>, lo: usize, hi: usize) -> (r: bool)
    requires
        lo <= hi <= chars.len(),
    ensures
        r == contains_seq(chars@.subrange(lo as int, hi as int), vault_marker()),
{
    let ghost sub = chars@.subrange(lo as int, hi as int);
    let ghost m = vault_marker();
    let mut k = lo;
    while k < hi && hi - k >= 6
        invariant
            lo <= k <= hi <= chars.len(),
            sub == chars@.subrange(lo as int, hi as int),
            m == vault_marker(),
            forall|j: int| lo <= j < k ==> !#[trigger] marker_at(chars@, j),
        decreases hi - k,
    {
        if chars[k] == '!' && chars[k + 1] == 'v' && chars[k + 2] == 'a' && chars[k + 3] == 'u'
            && chars[k + 4] == 'l' && chars[k + 5] == 't' {
            assert(sub.subrange(k - lo, k - lo + 6) =~= m);
            return true;
        }
        assert(!marker_at(chars@, k as int)) by {
            if chars@.subrange(k as int, k + 6) == m {
                assert(chars@.subrange(k as int, k + 6)[0] == chars@[k as int]);
                assert(chars@.subrange(k as int, k + 6)[1] == chars@[k + 1]);
                assert(chars@.subrange(k as int, k + 6)[2] == chars@[k + 2]);
                assert(chars@.subrange(k as int, k + 6)[3] == chars@[k + 3]);
                assert(chars@.subrange(k as int, k + 6)[4] == chars@[k + 4]);
                assert(chars@.subrange(k as int, k + 6)[5] == chars@[k + 5]);
            }
        }
        k = k + 1;
    }
    assert forall|j: int| 0 <= j && j + m.len() <= sub.len() implies #[trigger] sub.subrange(
        j,
        j + m.len(),
    ) != m by {
        assert(sub.subrange(j, j + m.len()) =~= chars@.subrange(lo + j, lo + j + 6));
        assert(!marker_at(chars@, lo + j));
    }
    false
}

/// Appends the trimmed piece `chars[start..end]` to `out` when it is kept.
fn push_piece(
    out: &mut String,
    any: &mut bool,
    text: &str,
    chars: &Vec<char>,
    start: usize,
    end: usize,
    Ghost(done): Ghost<Seq<Seq<char>>>,
)
    requires
        start <= end <= chars.len(),
        chars@ == text@,
        old(out)@ == join_lines(kept_lines(done)),
        *old(any) == (kept_lines(done).len() > 0),
    ensures
        final(out)@ == join_lines(kept_lines(done.push(chars@.subrange(start as int, end as int)))),
        *final(any) == (kept_lines(done.push(chars@.subrange(start as int, end as int))).len() > 0),
{
    let ghost piece = chars@.subrange(start as int, end as int);
    let ghost before = kept_lines(done);
    proof {
        lemma_kept_push(done, piece);
    }
    let (lo, hi) = trim_bounds(chars, start, end);
    if lo < hi && !contains_marker(chars, lo, hi) {
        let line = text.substring_char(lo, hi);
        let ghost after = before.push(trim(piece));
        assert(after.drop_last() =~= before);
        if *any {
            let sep = "\n";
            proof {
                reveal_strlit("\n");
            }
            out.append(sep);
        }
        out.append(line);
        *any = true;
    }
}

/// Pasted vault ciphertext reduced to what `ansible-vault` reads: each line
/// trimmed, empty lines and lines holding `!vault` dropped, the rest joined
/// with `'\n'`.
pub fn clean_ciphertext(ciphertext: &str) -> (r: String)
    ensures
        r@ == cleaned_ciphertext(ciphertext@),
{
    let chars = chars_of(ciphertext);
    let n = chars.len();
    let mut out = String::new();
    let mut any = false;
    let mut start: usize = 0;
    let ghost mut done: Seq<Seq<char>> = Seq::empty();
    let mut i: usize = 0;
    proof {
        reveal(Seq::filter);
        assert(done.map_values(|l: Seq<char>| trim(l)) =~= Seq::<Seq<char>>::empty());
        assert(chars@.take(0) =~= Seq::<char>::empty());
        assert(chars@.subrange(0, 0) =~= Seq::<char>::empty());
        assert(done.push(Seq::<char>::empty()) =~= seq![Seq::<char>::empty()]);
    }
    while i < n
        invariant
            start <= i <= n == chars@.len(),
            chars@ == ciphertext@,
            split_newlines(chars@.take(i as int)) == done.push(
                chars@.subrange(start as int, i as int),
            ),
            out@ == join_lines(kept_lines(done)),
            any == (kept_lines(done).len() > 0),
        decreases n - i,
    {
        let ghost prefix = chars@.take(i + 1);
        assert(prefix.drop_last() =~= chars@.take(i as int));
        if chars[i] == '\n' {
            push_piece(&mut out, &mut any, ciphertext, &chars, start, i, Ghost(done));
            proof {
                let piece = chars@.subrange(start as int, i as int);
                assert(chars@.subrange(i + 1, i + 1) =~= Seq::<char>::empty());
                done = done.push(piece);
            }
            start = i + 1;
        } else {
            proof {
                let piece = chars@.subrange(start as int, i as int);
                assert(piece.push(chars@[i as int]) =~= chars@.subrange(start as int, i + 1));
                assert(done.push(piece).update(done.len() as int, piece.push(chars@[i as int]))
                    =~= done.push(chars@.subrange(start as int, i + 1)));
            }
        }
        i = i + 1;
    }
    push_piece(&mut out, &mut any, ciphertext, &chars, start, n, Ghost(done));
    proof {
        assert(chars@.take(n as int) =~= chars@);
        lemma_kept_text_lines(ciphertext@);
    }
    out
}

} // verus!
