//! Text primitives: what `&str` values mean as sequences of characters, and
//! verified searches, splits, trims and renderings over them.

use vstd::prelude::*;
use vstd::std_specs::iter::IteratorSpec;

verus! {

/// `String::push` appends one character at the end of the text.
pub assume_specification[ std::string::String::push ](s: &mut std::string::String, c: char)
    ensures
        final(s)@ == old(s)@.push(c),
;

/// The views of a list of texts.
pub open spec fn views(v: Seq<String>) -> Seq<Seq<char>> {
    v.map_values(|s: String| s@)
}

/// The view of an optional text.
pub open spec fn text_option(o: Option<String>) -> Option<Seq<char>> {
    match o {
        Some(s) => Some(s@),
        None => None,
    }
}

/// The characters of a text, one per element.
pub fn chars_of(s: &str) -> (v: Vec<char>)
    ensures
        v@ == s@,
{
    let mut v: Vec<char> = Vec::new();
    let mut it = s.chars();
    assert(v@ + it.remaining() =~= s@);
    loop
        invariant_except_break
            v@ + it.remaining() == s@,
        invariant
            it.obeys_prophetic_iter_laws(),
        ensures
            v@ == s@,
        decreases s@.len() - v@.len(),
    {
        match it.next() {
            Some(c) => {
                v.push(c);
                assert(v@ + it.remaining() =~= s@);
            },
            None => {
                assert(v@ =~= s@);
                break;
            },
        }
    }
    v
}

/// The text made of the characters `v[from..to]`.
pub fn text_range(v: &Vec<char>, from: usize, to: usize) -> (s: String)
    requires
        from <= to <= v@.len(),
    ensures
        s@ == v@.subrange(from as int, to as int),
{
    let mut s = String::new();
    let mut i: usize = from;
    assert(s@ =~= v@.subrange(from as int, i as int));
    while i < to
        invariant
            from <= i <= to <= v@.len(),
            s@ == v@.subrange(from as int, i as int),
        decreases to - i,
    {
        s.push(v[i]);
        assert(v@.subrange(from as int, i as int).push(v@[i as int]) =~= v@.subrange(from as int, i + 1));
        i += 1;
    }
    s
}

/// The text made of all characters of `v`.
pub fn text_of(v: &Vec<char>) -> (s: String)
    ensures
        s@ == v@,
{
    let s = text_range(v, 0, v.len());
    assert(v@.subrange(0, v@.len() as int) =~= v@);
    s
}

/// The concatenation of two texts.
pub fn cat(a: &str, b: &str) -> (s: String)
    ensures
        s@ == a@ + b@,
{
    let mut s = a.to_owned();
    s.append(b);
    s
}

/// Whether two texts hold the same characters.
pub fn same(a: &str, b: &str) -> (r: bool)
    ensures
        r == (a@ == b@),
{
    a.to_owned() == b.to_owned()
}

/// Whether `v` holds the characters of `p` starting at index `at`.
pub open spec fn occurs_at(v: Seq<char>, p: Seq<char>, at: int) -> bool {
    &&& 0 <= at
    &&& at + p.len() <= v.len()
    &&& v.subrange(at, at + p.len()) == p
}

/// Tests `occurs_at`.
pub fn occurs(v: &Vec<char>, p: &Vec<char>, at: usize) -> (r: bool)
    requires
        at <= v@.len(),
    ensures
        r == occurs_at(v@, p@, at as int),
{
    if v.len() - at < p.len() {
        return false;
    }
    let n: usize = v.len();
    let mut i: usize = 0;
    while i < p.len()
        invariant
            n == v@.len(),
            at + p@.len() <= n,
            0 <= i <= p@.len(),
            forall|k: int| 0 <= k < i ==> v@[at + k] == p@[k],
        decreases p@.len() - i,
    {
        if v[at + i] != p[i] {
            assert(v@.subrange(at as int, at + p@.len())[i as int] != p@[i as int]);
            return false;
        }
        i += 1;
    }
    assert(v@.subrange(at as int, at + p@.len()) =~= p@);
    true
}

/// A text occurs somewhere in another.
pub open spec fn holds_text(s: Seq<char>, p: Seq<char>) -> bool {
    exists|k: int| occurs_at(s, p, k)
}

/// Tests whether a text occurs somewhere in another.
pub fn contains_part(s: &str, p: &str) -> (r: bool)
    ensures
        r == holds_text(s@, p@),
{
    let v = chars_of(s);
    let q = chars_of(p);
    let mut i: usize = 0;
    while i < v.len()
        invariant
            v@ == s@,
            q@ == p@,
            0 <= i <= v@.len(),
            forall|k: int| 0 <= k < i ==> !occurs_at(s@, p@, k),
        decreases v@.len() - i,
    {
        if occurs(&v, &q, i) {
            return true;
        }
        i += 1;
    }
    occurs(&v, &q, i)
}

/// The text starts with `p`.
pub open spec fn has_prefix(s: Seq<char>, p: Seq<char>) -> bool {
    occurs_at(s, p, 0)
}

/// Tests whether the text starts with `p`.
pub fn starts_with(s: &str, p: &str) -> (r: bool)
    ensures
        r == has_prefix(s@, p@),
{
    occurs(&chars_of(s), &chars_of(p), 0)
}

/// The text behind the prefix `p`, where the text starts with it.
pub fn strip_prefix(s: &str, p: &str) -> (r: Option<String>)
    ensures
        match r {
            Some(rest) => has_prefix(s@, p@) && rest@ == s@.skip(p@.len() as int),
            None => !has_prefix(s@, p@),
        },
{
    let v = chars_of(s);
    let q = chars_of(p);
    if occurs(&v, &q, 0) {
        Some(text_range(&v, q.len(), v.len()))
    } else {
        None
    }
}

/// The text ends with `p`.
pub open spec fn has_suffix(s: Seq<char>, p: Seq<char>) -> bool {
    occurs_at(s, p, s.len() - p.len())
}

/// Tests whether the text ends with `p`.
pub fn ends_with(s: &str, p: &str) -> (r: bool)
    ensures
        r == has_suffix(s@, p@),
{
    let v = chars_of(s);
    let q = chars_of(p);
    if v.len() < q.len() {
        return false;
    }
    occurs(&v, &q, v.len() - q.len())
}

/// The text in front of the suffix `p`, where the text ends with it.
pub fn strip_suffix(s: &str, p: &str) -> (r: Option<String>)
    ensures
        match r {
            Some(rest) => has_suffix(s@, p@) && rest@ == s@.take(s@.len() - p@.len()),
            None => !has_suffix(s@, p@),
        },
{
    let v = chars_of(s);
    let q = chars_of(p);
    if v.len() >= q.len() && occurs(&v, &q, v.len() - q.len()) {
        Some(text_range(&v, 0, v.len() - q.len()))
    } else {
        None
    }
}

/// The first index at or behind `from` that holds `c`; the length where none does.
pub open spec fn find_from(s: Seq<char>, c: char, from: int) -> int
    decreases s.len() - from,
{
    if from < 0 || from >= s.len() {
        s.len() as int
    } else if s[from] == c {
        from
    } else {
        find_from(s, c, from + 1)
    }
}

/// `find_from` yields the first index that holds the character.
pub proof fn lemma_find_from(s: Seq<char>, c: char, from: int)
    requires
        0 <= from <= s.len(),
    ensures
        from <= find_from(s, c, from) <= s.len(),
        find_from(s, c, from) < s.len() ==> s[find_from(s, c, from)] == c,
        forall|i: int| from <= i < find_from(s, c, from) ==> s[i] != c,
    decreases s.len() - from,
{
    if from < s.len() && s[from] != c {
        lemma_find_from(s, c, from + 1);
    }
}

/// An index that holds the character while none before it does is what `find_from` yields.
pub proof fn lemma_find_is(s: Seq<char>, c: char, from: int, at: int)
    requires
        0 <= from <= at <= s.len(),
        forall|i: int| from <= i < at ==> s[i] != c,
        at < s.len() ==> s[at] == c,
    ensures
        find_from(s, c, from) == at,
    decreases at - from,
{
    if from < at {
        lemma_find_is(s, c, from + 1, at);
    }
}

/// Finds the first occurrence of a character at or behind `from`.
pub fn find_char(v: &Vec<char>, c: char, from: usize) -> (r: usize)
    requires
        from <= v@.len(),
    ensures
        r == find_from(v@, c, from as int),
        from <= r <= v@.len(),
        r < v@.len() ==> v@[r as int] == c,
        forall|i: int| from <= i < r ==> v@[i] != c,
{
    let mut i: usize = from;
    while i < v.len()
        invariant
            from <= i <= v@.len(),
            find_from(v@, c, from as int) == find_from(v@, c, i as int),
            forall|k: int| from <= k < i ==> v@[k] != c,
        decreases v@.len() - i,
    {
        if v[i] == c {
            return i;
        }
        i += 1;
    }
    i
}

/// The part in front of the first `c` and the part behind it.
pub open spec fn split_once_spec(s: Seq<char>, c: char) -> Option<(Seq<char>, Seq<char>)> {
    let i = find_from(s, c, 0);
    if i < s.len() {
        Some((s.take(i), s.skip(i + 1)))
    } else {
        None
    }
}

/// Splits at the first occurrence of a character.
pub fn split_once(s: &str, c: char) -> (r: Option<(String, String)>)
    ensures
        match r {
            Some((a, b)) => split_once_spec(s@, c) == Some((a@, b@)),
            None => split_once_spec(s@, c) is None,
        },
{
    let v = chars_of(s);
    let i = find_char(&v, c, 0);
    if i < v.len() {
        Some((text_range(&v, 0, i), text_range(&v, i + 1, v.len())))
    } else {
        None
    }
}

/// The pieces of a text between the occurrences of `c`, empty ones included.
pub open spec fn split_spec(s: Seq<char>, c: char) -> Seq<Seq<char>>
    decreases s.len(),
{
    let i = find_from(s, c, 0);
    if 0 <= i < s.len() {
        seq![s.take(i)] + split_spec(s.skip(i + 1), c)
    } else {
        seq![s]
    }
}

proof fn lemma_find_skip(s: Seq<char>, c: char, k: int, from: int)
    requires
        0 <= k <= from <= s.len(),
    ensures
        find_from(s, c, from) == find_from(s.skip(k), c, from - k) + k,
    decreases s.len() - from,
{
    if from < s.len() && s[from] != c {
        lemma_find_skip(s, c, k, from + 1);
    }
}

/// Splits at each occurrence of a character.
pub fn split_char(s: &str, c: char) -> (r: Vec<String>)
    ensures
        views(r@) == split_spec(s@, c),
{
    let v = chars_of(s);
    let mut out: Vec<String> = Vec::new();
    let mut at: usize = 0;
    assert(s@.skip(0) =~= s@);
    assert(views(out@) + split_spec(s@.skip(0), c) =~= split_spec(s@, c));
    loop
        invariant_except_break
            v@ == s@,
            at <= v@.len(),
            views(out@) + split_spec(s@.skip(at as int), c) == split_spec(s@, c),
        ensures
            views(out@) == split_spec(s@, c),
        decreases v@.len() - at,
    {
        let i = find_char(&v, c, at);
        let piece = text_range(&v, at, i);
        let ghost before = out@;
        proof {
            lemma_find_skip(s@, c, at as int, at as int);
        }
        out.push(piece);
        assert(views(out@) =~= views(before).push(piece@));
        assert(piece@ =~= s@.skip(at as int).take(i - at));
        if i < v.len() {
            assert(s@.skip(at as int).skip(i - at + 1) =~= s@.skip(i + 1));
            assert(views(out@) + split_spec(s@.skip(i + 1), c) =~= views(before) + (seq![piece@] + split_spec(
                s@.skip(i + 1),
                c,
            )));
            at = i + 1;
        } else {
            assert(piece@ =~= s@.skip(at as int));
            assert(views(out@) =~= views(before) + seq![piece@]);
            break;
        }
    }
    out
}

/// A text without its final carriage return, where it has one.
pub open spec fn chomp_cr(s: Seq<char>) -> Seq<char> {
    if s.len() > 0 && s.last() == '\r' {
        s.drop_last()
    } else {
        s
    }
}

/// The lines of a text: `\n` and `\r\n` end a line, the last line needs no ending.
pub open spec fn lines_spec(s: Seq<char>) -> Seq<Seq<char>>
    decreases s.len(),
{
    let i = find_from(s, '\n', 0);
    if s.len() == 0 {
        seq![]
    } else if 0 <= i < s.len() {
        seq![chomp_cr(s.take(i))] + lines_spec(s.skip(i + 1))
    } else {
        seq![s]
    }
}

/// Splits a text into its lines.
pub fn lines(s: &str) -> (r: Vec<String>)
    ensures
        views(r@) == lines_spec(s@),
{
    let v = chars_of(s);
    let mut out: Vec<String> = Vec::new();
    let mut at: usize = 0;
    assert(s@.skip(0) =~= s@);
    assert(views(out@) + lines_spec(s@.skip(0)) =~= lines_spec(s@));
    while at < v.len()
        invariant
            v@ == s@,
            at <= v@.len(),
            views(out@) + lines_spec(s@.skip(at as int)) == lines_spec(s@),
        decreases v@.len() - at,
    {
        let i = find_char(&v, '\n', at);
        let ghost before = out@;
        proof {
            lemma_find_skip(s@, '\n', at as int, at as int);
        }
        if i < v.len() {
            let ghost head = s@.skip(at as int).take(i - at);
            assert(head =~= s@.subrange(at as int, i as int));
            let piece = if i > at && v[i - 1] == '\r' {
                assert(head.drop_last() =~= s@.subrange(at as int, i - 1));
                text_range(&v, at, i - 1)
            } else {
                text_range(&v, at, i)
            };
            assert(piece@ == chomp_cr(head));
            out.push(piece);
            assert(views(out@) =~= views(before).push(piece@));
            assert(s@.skip(at as int).skip(i - at + 1) =~= s@.skip(i + 1));
            assert(views(out@) + lines_spec(s@.skip(i + 1)) =~= views(before) + (seq![piece@] + lines_spec(
                s@.skip(i + 1),
            )));
            at = i + 1;
        } else {
            let piece = text_range(&v, at, i);
            out.push(piece);
            assert(views(out@) =~= views(before).push(piece@));
            assert(piece@ =~= s@.skip(at as int));
            assert(views(out@) + Seq::<Seq<char>>::empty() =~= views(before) + seq![piece@]);
            assert(s@.skip(i as int).len() == 0);
            assert(lines_spec(s@.skip(i as int)) =~= Seq::<Seq<char>>::empty());
            at = i;
        }
    }
    assert(s@.skip(at as int).len() == 0);
    assert(views(out@) + Seq::<Seq<char>>::empty() =~= views(out@));
    out
}

/// The Unicode `White_Space` property.
pub open spec fn white(c: char) -> bool {
    ||| '\t' <= c <= '\r'
    ||| c == ' '
    ||| c == '\u{85}'
    ||| c == '\u{a0}'
    ||| c == '\u{1680}'
    ||| '\u{2000}' <= c <= '\u{200a}'
    ||| c == '\u{2028}'
    ||| c == '\u{2029}'
    ||| c == '\u{202f}'
    ||| c == '\u{205f}'
    ||| c == '\u{3000}'
}

/// Tests the Unicode `White_Space` property.
pub fn is_white(c: char) -> (r: bool)
    ensures
        r == white(c),
{
    ('\t' <= c && c <= '\r') || c == ' ' || c == '\u{85}' || c == '\u{a0}' || c == '\u{1680}' || ('\u{2000}' <= c
        && c <= '\u{200a}') || c == '\u{2028}' || c == '\u{2029}' || c == '\u{202f}' || c == '\u{205f}' || c
        == '\u{3000}'
}

/// A text without its leading white space.
pub open spec fn trim_start_spec(s: Seq<char>) -> Seq<char>
    decreases s.len(),
{
    if s.len() > 0 && white(s[0]) {
        trim_start_spec(s.skip(1))
    } else {
        s
    }
}

/// A text without its trailing white space.
pub open spec fn trim_end_spec(s: Seq<char>) -> Seq<char>
    decreases s.len(),
{
    if s.len() > 0 && white(s.last()) {
        trim_end_spec(s.drop_last())
    } else {
        s
    }
}

/// A text without its leading and trailing white space.
pub open spec fn trim_spec(s: Seq<char>) -> Seq<char> {
    trim_end_spec(trim_start_spec(s))
}

fn white_end(v: &Vec<char>, from: usize) -> (r: usize)
    requires
        from <= v@.len(),
    ensures
        from <= r <= v@.len(),
        v@.skip(r as int) == trim_start_spec(v@.skip(from as int)),
        r < v@.len() ==> !white(v@[r as int]),
        forall|k: int| from <= k < r ==> white(v@[k]),
{
    let mut i: usize = from;
    while i < v.len() && is_white(v[i])
        invariant
            from <= i <= v@.len(),
            trim_start_spec(v@.skip(from as int)) == trim_start_spec(v@.skip(i as int)),
            forall|k: int| from <= k < i ==> white(v@[k]),
        decreases v@.len() - i,
    {
        assert(v@.skip(i as int).skip(1) =~= v@.skip(i + 1));
        i += 1;
    }
    i
}

fn white_start(v: &Vec<char>, from: usize) -> (r: usize)
    requires
        from <= v@.len(),
    ensures
        from <= r <= v@.len(),
        v@.subrange(from as int, r as int) == trim_end_spec(v@.skip(from as int)),
{
    let mut i: usize = v.len();
    assert(v@.subrange(from as int, i as int) =~= v@.skip(from as int));
    while i > from && is_white(v[i - 1])
        invariant
            from <= i <= v@.len(),
            trim_end_spec(v@.skip(from as int)) == trim_end_spec(v@.subrange(from as int, i as int)),
        decreases i,
    {
        assert(v@.subrange(from as int, i as int).drop_last() =~= v@.subrange(from as int, i - 1));
        i -= 1;
    }
    i
}

/// Removes leading white space.
pub fn trim_start(s: &str) -> (r: String)
    ensures
        r@ == trim_start_spec(s@),
{
    let v = chars_of(s);
    let i = white_end(&v, 0);
    assert(s@.skip(0) =~= s@);
    text_range(&v, i, v.len())
}

/// Removes leading and trailing white space.
pub fn trim(s: &str) -> (r: String)
    ensures
        r@ == trim_spec(s@),
{
    let v = chars_of(s);
    let i = white_end(&v, 0);
    assert(s@.skip(0) =~= s@);
    let j = white_start(&v, i);
    text_range(&v, i, j)
}

/// A text without the characters `c` at its end.
pub open spec fn trim_end_char_spec(s: Seq<char>, c: char) -> Seq<char>
    decreases s.len(),
{
    if s.len() > 0 && s.last() == c {
        trim_end_char_spec(s.drop_last(), c)
    } else {
        s
    }
}

/// Removes every trailing occurrence of a character.
pub fn trim_end_char(s: &str, c: char) -> (r: String)
    ensures
        r@ == trim_end_char_spec(s@, c),
{
    let v = chars_of(s);
    let mut i: usize = v.len();
    assert(v@.take(i as int) =~= v@);
    while i > 0 && v[i - 1] == c
        invariant
            0 <= i <= v@.len(),
            trim_end_char_spec(v@, c) == trim_end_char_spec(v@.take(i as int), c),
        decreases i,
    {
        assert(v@.take(i as int).drop_last() =~= v@.take(i - 1));
        i -= 1;
    }
    text_range(&v, 0, i)
}

/// The texts one behind the other, with `sep` between neighbours.
pub open spec fn join_spec(parts: Seq<Seq<char>>, sep: Seq<char>) -> Seq<char>
    decreases parts.len(),
{
    if parts.len() == 0 {
        seq![]
    } else if parts.len() == 1 {
        parts[0]
    } else {
        join_spec(parts.drop_last(), sep) + sep + parts.last()
    }
}

/// Joins texts with a separator between neighbours.
pub fn join(parts: &Vec<String>, sep: &str) -> (r: String)
    ensures
        r@ == join_spec(views(parts@), sep@),
{
    let mut out = String::new();
    let mut i: usize = 0;
    assert(views(parts@).take(0) =~= seq![]);
    while i < parts.len()
        invariant
            0 <= i <= parts@.len(),
            out@ == join_spec(views(parts@).take(i as int), sep@),
        decreases parts@.len() - i,
    {
        if i > 0 {
            out.append(sep);
        }
        out.append(parts[i].as_str());
        let ghost next = views(parts@).take(i + 1);
        assert(next.drop_last() =~= views(parts@).take(i as int));
        assert(next.last() == parts@[i as int]@);
        assert(out@ =~= join_spec(next, sep@));
        i += 1;
    }
    assert(views(parts@).take(i as int) =~= views(parts@));
    out
}

/// The text with every occurrence of `from` replaced by `to`, scanning from the
/// left and going on behind each occurrence. `from` is not empty.
pub open spec fn replace_spec(s: Seq<char>, from: Seq<char>, to: Seq<char>) -> Seq<char>
    decreases s.len(),
{
    if s.len() == 0 {
        seq![]
    } else if from.len() > 0 && has_prefix(s, from) {
        to + replace_spec(s.skip(from.len() as int), from, to)
    } else {
        seq![s[0]] + replace_spec(s.skip(1), from, to)
    }
}

/// Replaces every occurrence of a text that is not empty.
pub fn replace(s: &str, from: &str, to: &str) -> (r: String)
    requires
        from@.len() > 0,
    ensures
        r@ == replace_spec(s@, from@, to@),
{
    let v = chars_of(s);
    let f = chars_of(from);
    let mut out = String::new();
    let mut at: usize = 0;
    assert(s@.skip(0) =~= s@);
    assert(out@ + replace_spec(s@.skip(0), from@, to@) =~= replace_spec(s@, from@, to@));
    while at < v.len()
        invariant
            v@ == s@,
            f@ == from@,
            f@.len() > 0,
            at <= v@.len(),
            out@ + replace_spec(s@.skip(at as int), from@, to@) == replace_spec(s@, from@, to@),
        decreases v@.len() - at,
    {
        let ghost rest = s@.skip(at as int);
        let ghost before = out@;
        if occurs(&v, &f, at) {
            assert(rest.subrange(0, f@.len() as int) =~= v@.subrange(at as int, at + f@.len()));
            assert(has_prefix(rest, from@));
            assert(rest.skip(f@.len() as int) =~= s@.skip(at + f@.len()));
            out.append(to);
            assert(out@ + replace_spec(s@.skip(at + f@.len()), from@, to@) =~= before + (to@ + replace_spec(
                s@.skip(at + f@.len()),
                from@,
                to@,
            )));
            at += f.len();
        } else {
            assert(!has_prefix(rest, from@)) by {
                if has_prefix(rest, from@) {
                    assert(rest.subrange(0, f@.len() as int) =~= v@.subrange(at as int, at + f@.len()));
                }
            }
            assert(rest.skip(1) =~= s@.skip(at + 1));
            out.push(v[at]);
            assert(out@ + replace_spec(s@.skip(at + 1), from@, to@) =~= before + (seq![rest[0]] + replace_spec(
                s@.skip(at + 1),
                from@,
                to@,
            )));
            at += 1;
        }
    }
    assert(s@.skip(at as int).len() == 0);
    assert(out@ + Seq::<char>::empty() =~= out@);
    out
}

/// A joined text is its parts one behind the other, with the separator between neighbours.
pub proof fn joins_put_separators_between(parts: Seq<Seq<char>>, more: Seq<char>, sep: Seq<char>)
    ensures
        join_spec(Seq::empty(), sep).len() == 0,
        join_spec(seq![more], sep) == more,
        parts.len() > 0 ==> join_spec(parts.push(more), sep) == join_spec(parts, sep) + sep + more,
{
    assert(parts.push(more).drop_last() =~= parts);
    assert(parts.push(more).last() == more);
}

/// A character is stripped from the end as often as it stands there, and from nowhere else.
pub proof fn trailing_characters_are_stripped(s: Seq<char>, c: char)
    ensures
        trim_end_char_spec(s.push(c), c) == trim_end_char_spec(s, c),
        s.len() == 0 || s.last() != c ==> trim_end_char_spec(s, c) == s,
{
    assert(s.push(c).drop_last() =~= s);
    assert(s.push(c).last() == c);
}

/// A list without its repetitions holds each text where it first stood.
pub proof fn repetitions_are_left_out(s: Seq<Seq<char>>, t: Seq<char>)
    ensures
        dedup_spec(Seq::empty()).len() == 0,
        s.contains(t) ==> dedup_spec(s.push(t)) == dedup_spec(s),
        !s.contains(t) ==> dedup_spec(s.push(t)) == dedup_spec(s).push(t),
{
    assert(s.push(t).drop_last() =~= s);
    assert(s.push(t).last() == t);
    lemma_dedup(s);
}

/// Lines are told apart by their ends: the first line of a text stands in front of its
/// first `\n`, without the `\r` there, and the others are the lines behind it. A text without
/// one is a line of its own.
pub proof fn lines_are_told_apart(line: Seq<char>, rest: Seq<char>)
    requires
        !line.contains('\n'),
    ensures
        line.len() == 0 || line.last() != '\r' ==> lines_spec(line + seq!['\n'] + rest) == seq![line] + lines_spec(rest),
        lines_spec(line + seq!['\r', '\n'] + rest) == seq![line] + lines_spec(rest),
        line.len() > 0 ==> lines_spec(line) == seq![line],
        lines_spec(Seq::empty()).len() == 0,
{
    let n = line.len() as int;
    assert forall|i: int| 0 <= i < n implies line[i] != '\n' by {
        assert(line.contains(line[i]));
    }
    lemma_find_is(line, '\n', 0, n);
    let a = line + seq!['\n'] + rest;
    assert forall|i: int| 0 <= i < n implies a[i] != '\n' by {
        assert(a[i] == line[i]);
    }
    assert(a[n] == '\n');
    lemma_find_is(a, '\n', 0, n);
    assert(a.take(n) =~= line);
    assert(a.skip(n + 1) =~= rest);
    let b = line + seq!['\r', '\n'] + rest;
    assert forall|i: int| 0 <= i < n + 1 implies b[i] != '\n' by {
        if i < n {
            assert(b[i] == line[i]);
        }
    }
    assert(b[n + 1] == '\n');
    lemma_find_is(b, '\n', 0, n + 1);
    assert(b.take(n + 1) =~= line.push('\r'));
    assert(line.push('\r').drop_last() =~= line);
    assert(b.skip(n + 2) =~= rest);
}

/// What is put behind a text occurs in the whole, and so does whatever occurs in the text.
pub proof fn parts_occur_in_the_whole(s: Seq<char>, a: Seq<char>, b: Seq<char>, c: Seq<char>)
    ensures
        holds_text(s + a + b + c, a + b + c),
        forall|p: Seq<char>| holds_text(s, p) ==> #[trigger] holds_text(s + a + b + c, p),
{
    let all = s + a + b + c;
    let part = a + b + c;
    let n = s.len() as int;
    assert(all.subrange(n, n + part.len()) =~= part);
    assert(occurs_at(all, part, n));
    assert forall|p: Seq<char>| holds_text(s, p) implies #[trigger] holds_text(all, p) by {
        let k = choose|k: int| occurs_at(s, p, k);
        assert(all.subrange(k, k + p.len()) =~= s.subrange(k, k + p.len()));
        assert(occurs_at(all, p, k));
    }
}

/// Filling a text up to a width keeps it: spaces go behind it, and other characters in front
/// of it, as many as are missing.
pub proof fn filling_up_keeps_the_text(s: Seq<char>, width: int, c: char)
    ensures
        pad_right_spec(s, width).len() == (if s.len() < width {
            width
        } else {
            s.len() as int
        }),
        pad_right_spec(s, width).take(s.len() as int) == s,
        forall|i: int| s.len() <= i < width ==> pad_right_spec(s, width)[i] == ' ',
        pad_left_spec(s, width, c).len() == pad_right_spec(s, width).len(),
        pad_left_spec(s, width, c).skip(pad_left_spec(s, width, c).len() - s.len()) == s,
        forall|i: int| 0 <= i < width - s.len() ==> pad_left_spec(s, width, c)[i] == c,
{
    assert(pad_right_spec(s, width).take(s.len() as int) =~= s);
    assert(pad_left_spec(s, width, c).skip(pad_left_spec(s, width, c).len() - s.len()) =~= s);
}

/// A text that fits its number of bytes is shown whole; a longer one is cut behind the
/// characters that fill that number, with an ellipsis.
pub proof fn long_texts_are_cut(kept: Seq<char>, rest: Seq<char>)
    ensures
        ellipsize_spec(kept, byte_len(kept)) == kept,
        rest.len() > 0 ==> ellipsize_spec(kept + rest, byte_len(kept)) == kept + seq!['.', '.', '.'],
{
    lemma_cut(kept, rest);
}

/// The characters in front of a byte are those whose bytes stand in front of it.
pub proof fn lemma_cut(kept: Seq<char>, rest: Seq<char>)
    ensures
        byte_prefix(kept + rest, byte_len(kept)) == kept,
        byte_len(kept + rest) == byte_len(kept) + byte_len(rest),
        rest.len() > 0 ==> byte_len(rest) > 0,
    decreases kept.len(),
{
    let text = kept + rest;
    if kept.len() == 0 {
        assert(text =~= rest);
        assert(byte_prefix(text, 0) =~= kept);
    } else {
        assert(text[0] == kept[0]);
        assert(text.skip(1) =~= kept.skip(1) + rest);
        lemma_cut(kept.skip(1), rest);
        assert(byte_prefix(text, byte_len(kept)) =~= kept);
    }
}

/// A text without a separator is one part; with one, its first part is what stands in
/// front of it, and the others are the parts of what stands behind.
pub proof fn splits_take_parts_apart(a: Seq<char>, b: Seq<char>, c: char)
    requires
        !a.contains(c),
    ensures
        split_spec(a, c) == seq![a],
        split_spec(a + seq![c] + b, c) == seq![a] + split_spec(b, c),
{
    assert forall|i: int| 0 <= i < a.len() implies a[i] != c by {
        assert(a.contains(a[i]));
    }
    let n = a.len() as int;
    lemma_find_is(a, c, 0, n);
    let t = a + seq![c] + b;
    assert forall|i: int| 0 <= i < n implies t[i] != c by {
        assert(t[i] == a[i]);
    }
    assert(t[n] == c);
    lemma_find_is(t, c, 0, n);
    assert(t.take(n) =~= a);
    assert(t.skip(n + 1) =~= b);
}

/// A text that does not occur is not replaced.
pub proof fn texts_without_an_occurrence_stay(s: Seq<char>, from: Seq<char>, to: Seq<char>)
    requires
        from.len() > 0,
        forall|i: int| !occurs_at(s, from, i),
    ensures
        replace_spec(s, from, to) == s,
    decreases s.len(),
{
    if s.len() > 0 {
        assert(!occurs_at(s, from, 0));
        let rest = s.skip(1);
        assert forall|i: int| !occurs_at(rest, from, i) by {
            if occurs_at(rest, from, i) {
                assert(s.subrange(i + 1, i + 1 + from.len()) =~= rest.subrange(i, i + from.len()));
                assert(occurs_at(s, from, i + 1));
            }
        }
        texts_without_an_occurrence_stay(rest, from, to);
        assert(seq![s[0]] + rest =~= s);
    } else {
        assert(replace_spec(s, from, to) =~= s);
    }
}

/// The first occurrence of a text is replaced, what stands before it stays, and the rest
/// is searched behind it.
pub proof fn the_first_occurrence_is_replaced(s: Seq<char>, from: Seq<char>, to: Seq<char>, i: int)
    requires
        from.len() > 0,
        occurs_at(s, from, i),
        forall|j: int| j < i ==> !occurs_at(s, from, j),
    ensures
        replace_spec(s, from, to) == s.take(i) + to + replace_spec(s.skip(i + from.len()), from, to),
    decreases i,
{
    if i == 0 {
        assert(s.take(0) + to =~= to);
        assert(s.skip(i + from.len()) =~= s.skip(from.len() as int));
    } else {
        assert(!occurs_at(s, from, 0));
        let rest = s.skip(1);
        assert(rest.subrange(i - 1, i - 1 + from.len()) =~= s.subrange(i, i + from.len()));
        assert forall|j: int| j < i - 1 implies !occurs_at(rest, from, j) by {
            if occurs_at(rest, from, j) {
                assert(s.subrange(j + 1, j + 1 + from.len()) =~= rest.subrange(j, j + from.len()));
                assert(occurs_at(s, from, j + 1));
            }
        }
        the_first_occurrence_is_replaced(rest, from, to, i - 1);
        assert(rest.skip(i - 1 + from.len()) =~= s.skip(i + from.len()));
        assert(seq![s[0]] + rest.take(i - 1) =~= s.take(i));
        assert(seq![s[0]] + (rest.take(i - 1) + to + replace_spec(s.skip(i + from.len()), from, to)) =~= s.take(i) + to
            + replace_spec(s.skip(i + from.len()), from, to));
    }
}

/// The character of a digit value below sixteen.
pub open spec fn digit_char(d: int) -> char {
    if d < 10 {
        (48 + d) as char
    } else {
        (87 + d) as char
    }
}

/// The digits of a number in a base, most significant first.
pub open spec fn digits_spec(n: nat, base: nat) -> Seq<char>
    decreases n,
{
    if base < 2 || n < base {
        seq![digit_char(n as int)]
    } else {
        proof {
            assert(n / base < n) by (nonlinear_arith)
                requires
                    2 <= base <= n,
            ;
        }
        digits_spec(n / base, base).push(digit_char((n % base) as int))
    }
}

fn digit_of(d: u64) -> (c: char)
    requires
        d < 16,
    ensures
        c == digit_char(d as int),
{
    if d < 10 {
        (48 + d as u8) as char
    } else {
        (87 + d as u8) as char
    }
}

fn digits_of(n: u64, base: u64) -> (v: Vec<char>)
    requires
        2 <= base <= 16,
    ensures
        v@ == digits_spec(n as nat, base as nat),
    decreases n,
{
    if n < base {
        let mut v: Vec<char> = Vec::new();
        v.push(digit_of(n));
        assert(v@ =~= digits_spec(n as nat, base as nat));
        v
    } else {
        assert(0 <= n / base < n && n % base < base) by (nonlinear_arith)
            requires
                2 <= base <= n,
        ;
        let mut v = digits_of(n / base, base);
        v.push(digit_of(n % base));
        v
    }
}

/// The decimal digits of a number.
pub open spec fn dec(n: nat) -> Seq<char> {
    digits_spec(n, 10)
}

/// Writes a number in decimal.
pub fn dec_u64(n: u64) -> (s: String)
    ensures
        s@ == dec(n as nat),
{
    text_of(&digits_of(n, 10))
}

/// The decimal text of a signed number.
pub open spec fn dec_int(n: int) -> Seq<char> {
    if n < 0 {
        seq!['-'] + dec((-n) as nat)
    } else {
        dec(n as nat)
    }
}

/// Writes a signed number in decimal.
pub fn dec_i64(n: i64) -> (s: String)
    ensures
        s@ == dec_int(n as int),
{
    if n < 0 {
        let m: u64 = if n == i64::MIN {
            9223372036854775808
        } else {
            (-n) as u64
        };
        let mut s = String::new();
        s.push('-');
        s.append(dec_u64(m).as_str());
        assert(s@ =~= dec_int(n as int));
        s
    } else {
        dec_u64(n as u64)
    }
}

/// The lower-case hexadecimal digits of a number.
pub open spec fn hex(n: nat) -> Seq<char> {
    digits_spec(n, 16)
}

/// Writes a number in lower-case hexadecimal.
pub fn hex_u64(n: u64) -> (s: String)
    ensures
        s@ == hex(n as nat),
{
    text_of(&digits_of(n, 16))
}

/// `count` copies of a character.
pub open spec fn repeat_spec(c: char, count: int) -> Seq<char> {
    Seq::new(if count < 0 { 0 } else { count as nat }, |i: int| c)
}

/// Writes `count` copies of a character.
pub fn repeat(c: char, count: usize) -> (s: String)
    ensures
        s@ == repeat_spec(c, count as int),
{
    let mut s = String::new();
    let mut i: usize = 0;
    while i < count
        invariant
            0 <= i <= count,
            s@ =~= repeat_spec(c, i as int),
        decreases count - i,
    {
        s.push(c);
        i += 1;
    }
    s
}

/// The text, filled up to a width with `c` on its left.
pub open spec fn pad_left_spec(s: Seq<char>, width: int, c: char) -> Seq<char> {
    repeat_spec(c, width - s.len()) + s
}

/// Fills a text up to a width on its left.
pub fn pad_left(s: &str, width: usize, c: char) -> (r: String)
    ensures
        r@ == pad_left_spec(s@, width as int, c),
{
    let n = s.unicode_len();
    let fill: usize = if n < width {
        width - n
    } else {
        0
    };
    let mut out = repeat(c, fill);
    out.append(s);
    assert(out@ =~= pad_left_spec(s@, width as int, c));
    out
}

/// The text, filled up to a width with spaces on its right.
pub open spec fn pad_right_spec(s: Seq<char>, width: int) -> Seq<char> {
    s + repeat_spec(' ', width - s.len())
}

/// Fills a text up to a width with spaces on its right.
pub fn pad_right(s: &str, width: usize) -> (r: String)
    ensures
        r@ == pad_right_spec(s@, width as int),
{
    let n = s.unicode_len();
    let fill: usize = if n < width {
        width - n
    } else {
        0
    };
    let mut out = s.to_owned();
    out.append(repeat(' ', fill).as_str());
    assert(out@ =~= pad_right_spec(s@, width as int));
    out
}

/// The number that a run of digits stands for in a base of at most ten.
pub open spec fn value_spec(s: Seq<char>, base: nat) -> Option<nat>
    decreases s.len(),
{
    if s.len() == 0 {
        Some(0)
    } else {
        match value_spec(s.drop_last(), base) {
            Some(v) => if '0' <= s.last() && (s.last() as int) < 48 + base {
                Some((v * base + (s.last() as int - 48)) as nat)
            } else {
                None
            },
            None => None,
        }
    }
}

/// The number that a text stands for: at least one digit, with an optional `+` in
/// front, up to a largest value.
pub open spec fn parse_uint_spec(s: Seq<char>, base: nat, max: nat) -> Option<nat> {
    let t = if s.len() > 0 && s[0] == '+' {
        s.skip(1)
    } else {
        s
    };
    if t.len() == 0 {
        None
    } else {
        match value_spec(t, base) {
            Some(v) => if v <= max {
                Some(v)
            } else {
                None
            },
            None => None,
        }
    }
}

proof fn lemma_value_grows(s: Seq<char>, base: nat, k: int)
    requires
        base >= 1,
        0 <= k <= s.len(),
        value_spec(s, base) is Some,
    ensures
        value_spec(s.take(k), base) is Some,
        value_spec(s.take(k), base)->0 <= value_spec(s, base)->0,
    decreases s.len(),
{
    if k == s.len() {
        assert(s.take(k) =~= s);
    } else {
        lemma_value_grows(s.drop_last(), base, k);
        assert(s.drop_last().take(k) =~= s.take(k));
        let v = value_spec(s.drop_last(), base)->0;
        assert(v * base >= v) by (nonlinear_arith)
            requires
                base >= 1,
                v >= 0,
        ;
    }
}

fn digit_value(c: char, base: u64) -> (r: Option<u64>)
    requires
        1 <= base <= 10,
    ensures
        match r {
            Some(d) => '0' <= c && (c as int) < 48 + base && d == c as int - 48,
            None => !('0' <= c && (c as int) < 48 + base),
        },
{
    let u: u32 = c as u32;
    if u >= 48 && (u as u64) < 48 + base {
        Some(u as u64 - 48)
    } else {
        None
    }
}

/// Reads the digits from `from` on, up to a largest value.
pub fn parse_digits(v: &Vec<char>, from: usize, base: u64, max: u64) -> (r: Option<u64>)
    requires
        from <= v@.len(),
        1 <= base <= 10,
        max <= 0xffff_ffff,
    ensures
        match r {
            Some(n) => n <= max && value_spec(v@.skip(from as int), base as nat) == Some(n as nat),
            None => match value_spec(v@.skip(from as int), base as nat) {
                Some(n) => n > max,
                None => true,
            },
        },
{
    let mut acc: u64 = 0;
    let mut i: usize = from;
    let ghost t = v@.skip(from as int);
    assert(t.take(0) =~= seq![]);
    while i < v.len()
        invariant
            from <= i <= v@.len(),
            1 <= base <= 10,
            acc <= max <= 0xffff_ffff,
            t == v@.skip(from as int),
            value_spec(t.take(i - from), base as nat) == Some(acc as nat),
        decreases v@.len() - i,
    {
        let c = v[i];
        let ghost next = t.take(i - from + 1);
        assert(next.drop_last() =~= t.take(i - from));
        assert(next.last() == c);
        let d: u64 = match digit_value(c, base) {
            Some(d) => d,
            None => {
                proof {
                    if value_spec(t, base as nat) is Some {
                        lemma_value_grows(t, base as nat, i - from + 1);
                    }
                }
                return None;
            },
        };
        assert(acc * base <= 0xffff_ffff * 10) by (nonlinear_arith)
            requires
                0 <= acc <= 0xffff_ffff,
                1 <= base <= 10,
        ;
        let n: u64 = acc * base + d;
        assert(value_spec(next, base as nat) == Some(n as nat));
        if n > max {
            proof {
                if value_spec(t, base as nat) is Some {
                    lemma_value_grows(t, base as nat, i - from + 1);
                }
            }
            return None;
        }
        acc = n;
        i += 1;
    }
    assert(t.take(i - from) =~= t);
    Some(acc)
}

/// Reads an unsigned number: optional `+`, then digits, up to a largest value.
pub fn parse_uint(s: &str, base: u64, max: u64) -> (r: Option<u64>)
    requires
        1 <= base <= 10,
        max <= 0xffff_ffff,
    ensures
        match r {
            Some(n) => n <= max && parse_uint_spec(s@, base as nat, max as nat) == Some(n as nat),
            None => parse_uint_spec(s@, base as nat, max as nat) is None,
        },
{
    let v = chars_of(s);
    let from: usize = if v.len() > 0 && v[0] == '+' {
        1
    } else {
        0
    };
    if from == v.len() {
        return None;
    }
    assert(s@.skip(0) =~= s@);
    parse_digits(&v, from, base, max)
}

/// Reading the decimal digits of a number gives the number back.
pub proof fn lemma_value_of_dec(n: nat)
    ensures
        value_spec(dec(n), 10) == Some(n),
        dec(n).len() > 0,
        forall|i: int| 0 <= i < dec(n).len() ==> '0' <= #[trigger] dec(n)[i] <= '9',
    decreases n,
{
    if n < 10 {
        assert(dec(n).drop_last() =~= seq![]);
        assert(value_spec(dec(n).drop_last(), 10) == Some(0nat));
    } else {
        lemma_value_of_dec(n / 10);
        let d = (n % 10) as int;
        assert(dec(n).drop_last() =~= dec(n / 10));
        assert(dec(n).last() == digit_char(d));
        assert(digit_char(d) as int == 48 + d);
        assert((n / 10) * 10 + d == n);
    }
}

/// The number of bytes that a character takes in UTF-8.
pub open spec fn utf8_len(c: char) -> nat {
    if (c as int) < 0x80 {
        1
    } else if (c as int) < 0x800 {
        2
    } else if (c as int) < 0x10000 {
        3
    } else {
        4
    }
}

/// The number of bytes that a text takes in UTF-8.
pub open spec fn byte_len(s: Seq<char>) -> nat
    decreases s.len(),
{
    if s.len() == 0 {
        0
    } else {
        utf8_len(s[0]) + byte_len(s.skip(1))
    }
}

/// Some character of the text starts at byte `n`, or the text ends there.
pub open spec fn on_boundary(s: Seq<char>, n: nat) -> bool
    decreases s.len(),
{
    n == 0 || (s.len() > 0 && utf8_len(s[0]) <= n && on_boundary(s.skip(1), (n - utf8_len(s[0])) as nat))
}

/// The characters in front of byte `n`, where a character starts there.
pub open spec fn byte_prefix(s: Seq<char>, n: nat) -> Seq<char>
    decreases s.len(),
{
    if n == 0 || s.len() == 0 || n < utf8_len(s[0]) {
        seq![]
    } else {
        seq![s[0]] + byte_prefix(s.skip(1), (n - utf8_len(s[0])) as nat)
    }
}

/// A text of at most `n` bytes as it is; a longer one cut behind byte `n`, with `...`.
pub open spec fn ellipsize_spec(s: Seq<char>, n: nat) -> Seq<char> {
    if byte_len(s) > n {
        byte_prefix(s, n) + seq!['.', '.', '.']
    } else {
        s
    }
}

/// Cutting the text behind byte `n` splits no character.
pub open spec fn can_ellipsize(s: Seq<char>, n: nat) -> bool {
    byte_len(s) > n ==> on_boundary(s, n)
}

fn utf8_len_of(c: char) -> (r: usize)
    ensures
        r == utf8_len(c),
        1 <= r <= 4,
{
    let u: u32 = c as u32;
    if u < 0x80 {
        1
    } else if u < 0x800 {
        2
    } else if u < 0x10000 {
        3
    } else {
        4
    }
}

/// What the scan of a text up to a byte bound found.
enum Cut {
    /// The text takes no more bytes than the bound.
    Whole,
    /// The bound lies behind this many characters.
    At(usize),
    /// The bound lies inside a character.
    Inside,
}

fn cut_at(v: &Vec<char>, n: usize) -> (r: Cut)
    ensures
        match r {
            Cut::Whole => byte_len(v@) <= n,
            Cut::At(k) => k <= v@.len() && byte_len(v@) > n && on_boundary(v@, n as nat) && byte_prefix(v@, n as nat)
                == v@.take(k as int),
            Cut::Inside => byte_len(v@) > n && !on_boundary(v@, n as nat),
        },
{
    let mut i: usize = 0;
    let mut left: usize = n;
    assert(v@.skip(0) =~= v@);
    assert(v@.take(0) =~= seq![]);
    assert(seq![] + byte_prefix(v@, n as nat) =~= byte_prefix(v@, n as nat));
    while i < v.len()
        invariant
            0 <= i <= v@.len(),
            left <= n,
            byte_len(v@) > n <==> byte_len(v@.skip(i as int)) > left,
            on_boundary(v@, n as nat) <==> on_boundary(v@.skip(i as int), left as nat),
            byte_prefix(v@, n as nat) == v@.take(i as int) + byte_prefix(v@.skip(i as int), left as nat),
        decreases v@.len() - i,
    {
        let k = utf8_len_of(v[i]);
        let ghost rest = v@.skip(i as int);
        assert(rest.skip(1) =~= v@.skip(i + 1));
        if left == 0 {
            assert(v@.take(i as int) + seq![] =~= v@.take(i as int));
            return Cut::At(i);
        }
        if left < k {
            return Cut::Inside;
        }
        assert(v@.take(i as int) + (seq![rest[0]] + byte_prefix(v@.skip(i + 1), (left - k) as nat)) =~= v@.take(i + 1)
            + byte_prefix(v@.skip(i + 1), (left - k) as nat));
        left -= k;
        i += 1;
    }
    Cut::Whole
}

/// A text split at a byte position.
#[derive(Debug)]
pub enum ByteSplit {
    /// The text takes no more bytes than lie in front of the position.
    Whole,
    /// The characters in front of the position, and those behind it.
    At(String, String),
    /// The position lies inside a character.
    Inside,
}

/// Splits a text at a byte position.
pub fn split_at_byte(s: &str, n: usize) -> (r: ByteSplit)
    ensures
        match r {
            ByteSplit::Whole => byte_len(s@) <= n,
            ByteSplit::At(head, rest) => {
                &&& byte_len(s@) > n
                &&& on_boundary(s@, n as nat)
                &&& head@ == byte_prefix(s@, n as nat)
                &&& rest@ == s@.skip(head@.len() as int)
            },
            ByteSplit::Inside => byte_len(s@) > n && !on_boundary(s@, n as nat),
        },
{
    let v = chars_of(s);
    match cut_at(&v, n) {
        Cut::Whole => ByteSplit::Whole,
        Cut::At(k) => ByteSplit::At(text_range(&v, 0, k), text_range(&v, k, v.len())),
        Cut::Inside => ByteSplit::Inside,
    }
}

/// Tests `can_ellipsize`.
pub fn may_ellipsize(s: &str, n: usize) -> (r: bool)
    ensures
        r == can_ellipsize(s@, n as nat),
{
    match cut_at(&chars_of(s), n) {
        Cut::Inside => false,
        _ => true,
    }
}

/// Cuts a text of more than `n` bytes and marks the cut with `...`.
pub fn ellipsize(s: &str, n: usize) -> (r: String)
    requires
        can_ellipsize(s@, n as nat),
    ensures
        r@ == ellipsize_spec(s@, n as nat),
{
    let v = chars_of(s);
    match cut_at(&v, n) {
        Cut::At(k) => {
            let mut out = text_range(&v, 0, k);
            out.push('.');
            out.push('.');
            out.push('.');
            assert(out@ =~= ellipsize_spec(s@, n as nat));
            out
        },
        _ => s.to_owned(),
    }
}

/// The texts without those that stand before in the list.
pub open spec fn dedup_spec(s: Seq<Seq<char>>) -> Seq<Seq<char>>
    decreases s.len(),
{
    if s.len() == 0 {
        seq![]
    } else {
        add_new(dedup_spec(s.drop_last()), s.last())
    }
}

/// A list with a text at its end, unless the list holds it already.
pub open spec fn add_new(s: Seq<Seq<char>>, t: Seq<char>) -> Seq<Seq<char>> {
    if s.contains(t) {
        s
    } else {
        s.push(t)
    }
}

/// The texts of one list, then those of another that are new to it.
pub open spec fn add_all_new(s: Seq<Seq<char>>, more: Seq<Seq<char>>) -> Seq<Seq<char>>
    decreases more.len(),
{
    if more.len() == 0 {
        s
    } else {
        add_new(add_all_new(s, more.drop_last()), more.last())
    }
}

/// Removing repetitions keeps each text once and loses none.
pub proof fn lemma_dedup(s: Seq<Seq<char>>)
    ensures
        dedup_spec(s).no_duplicates(),
        forall|t: Seq<char>| #[trigger] dedup_spec(s).contains(t) <==> s.contains(t),
    decreases s.len(),
{
    if s.len() > 0 {
        lemma_dedup(s.drop_last());
        let d = dedup_spec(s.drop_last());
        let r = dedup_spec(s);
        assert forall|t: Seq<char>| #[trigger] r.contains(t) <==> s.contains(t) by {
            assert(s.drop_last().contains(t) || t == s.last() <==> s.contains(t)) by {
                if s.contains(t) {
                    let i = s.index_of(t);
                    if i < s.len() - 1 {
                        assert(s.drop_last()[i] == t);
                    }
                }
                if s.drop_last().contains(t) {
                    let i = s.drop_last().index_of(t);
                    assert(s[i] == t);
                }
            }
            if d.contains(s.last()) {
            } else {
                assert(r == d.push(s.last()));
                assert(r.contains(t) <==> d.contains(t) || t == s.last()) by {
                    if d.contains(t) {
                        let i = d.index_of(t);
                        assert(r[i] == t);
                    }
                    if t == s.last() {
                        assert(r[d.len() as int] == t);
                    }
                }
            }
        }
    }
}

/// Whether a list of texts holds a text.
pub fn contains_text(v: &Vec<String>, s: &str) -> (r: bool)
    ensures
        r == views(v@).contains(s@),
{
    let mut i: usize = 0;
    while i < v.len()
        invariant
            0 <= i <= v@.len(),
            forall|j: int| 0 <= j < i ==> views(v@)[j] != s@,
        decreases v@.len() - i,
    {
        if same(v[i].as_str(), s) {
            assert(views(v@)[i as int] == s@);
            return true;
        }
        i += 1;
    }
    assert(!views(v@).contains(s@));
    false
}

/// Puts a text at the end of a list, unless the list holds it already.
pub fn push_new(v: &mut Vec<String>, s: String)
    ensures
        views(final(v)@) == add_new(views(old(v)@), s@),
{
    if !contains_text(v, s.as_str()) {
        v.push(s);
        assert(views(v@) =~= views(old(v)@).push(s@));
    }
}

/// Puts at the end of a list those of another that are new to it.
pub fn push_all_new(v: &mut Vec<String>, more: &Vec<String>)
    ensures
        views(final(v)@) == add_all_new(views(old(v)@), views(more@)),
{
    let mut i: usize = 0;
    assert(views(more@).take(0) =~= seq![]);
    while i < more.len()
        invariant
            0 <= i <= more@.len(),
            views(v@) == add_all_new(views(old(v)@), views(more@).take(i as int)),
        decreases more@.len() - i,
    {
        push_new(v, more[i].clone());
        let ghost next = views(more@).take(i + 1);
        assert(next.drop_last() =~= views(more@).take(i as int));
        assert(next.last() == more@[i as int]@);
        i += 1;
    }
    assert(views(more@).take(i as int) =~= views(more@));
}

/// Adding to a list without repetitions what is new to it is removing repetitions.
pub proof fn lemma_add_all_new(s: Seq<Seq<char>>, more: Seq<Seq<char>>)
    ensures
        add_all_new(dedup_spec(s), more) == dedup_spec(s + more),
    decreases more.len(),
{
    if more.len() == 0 {
        assert(s + more =~= s);
    } else {
        lemma_add_all_new(s, more.drop_last());
        assert((s + more).drop_last() =~= s + more.drop_last());
        assert((s + more).last() == more.last());
    }
}

/// A copy of a list of texts.
pub fn copy_texts(v: &Vec<String>) -> (r: Vec<String>)
    ensures
        r@ == v@,
        views(r@) == views(v@),
{
    let r = v.clone();
    assert(r@ =~= v@);
    r
}

/// A copy of an optional text.
pub fn copy_option(o: &Option<String>) -> (r: Option<String>)
    ensures
        r == *o,
{
    match o {
        Some(s) => Some(s.clone()),
        None => None,
    }
}

/// A text without the characters `c` at its start.
pub open spec fn trim_start_char_spec(s: Seq<char>, c: char) -> Seq<char>
    decreases s.len(),
{
    if s.len() > 0 && s[0] == c {
        trim_start_char_spec(s.skip(1), c)
    } else {
        s
    }
}

/// Removes every leading occurrence of a character.
pub fn trim_start_char(s: &str, c: char) -> (r: String)
    ensures
        r@ == trim_start_char_spec(s@, c),
{
    let v = chars_of(s);
    let mut i: usize = 0;
    assert(v@.skip(0) =~= v@);
    while i < v.len() && v[i] == c
        invariant
            0 <= i <= v@.len(),
            trim_start_char_spec(v@, c) == trim_start_char_spec(v@.skip(i as int), c),
        decreases v@.len() - i,
    {
        assert(v@.skip(i as int).skip(1) =~= v@.skip(i + 1));
        i += 1;
    }
    text_range(&v, i, v.len())
}

/// The position behind the last occurrence of a character; zero where there is none.
pub open spec fn behind_last(s: Seq<char>, c: char) -> int
    decreases s.len(),
{
    if s.len() == 0 {
        0
    } else if s.last() == c {
        s.len() as int
    } else {
        behind_last(s.drop_last(), c)
    }
}

/// Finds the position behind the last occurrence of a character.
pub fn find_behind_last(v: &Vec<char>, c: char) -> (r: usize)
    ensures
        r == behind_last(v@, c),
        r <= v@.len(),
        r > 0 ==> v@[r - 1] == c,
        forall|i: int| r <= i < v@.len() ==> v@[i] != c,
{
    let mut i: usize = v.len();
    assert(v@.take(i as int) =~= v@);
    while i > 0 && v[i - 1] != c
        invariant
            0 <= i <= v@.len(),
            behind_last(v@, c) == behind_last(v@.take(i as int), c),
            forall|j: int| i <= j < v@.len() ==> v@[j] != c,
        decreases i,
    {
        assert(v@.take(i as int).drop_last() =~= v@.take(i - 1));
        i -= 1;
    }
    i
}

/// Trimming the end of a concatenation reaches the first part only where nothing of the
/// second is left.
pub proof fn lemma_trim_end_append(a: Seq<char>, b: Seq<char>)
    ensures
        trim_end_spec(a + b) == (if trim_end_spec(b).len() > 0 {
            a + trim_end_spec(b)
        } else {
            trim_end_spec(a)
        }),
    decreases b.len(),
{
    if b.len() == 0 {
        assert(a + b =~= a);
    } else {
        assert((a + b).last() == b.last());
        if white(b.last()) {
            assert((a + b).drop_last() =~= a + b.drop_last());
            lemma_trim_end_append(a, b.drop_last());
        }
    }
}

/// What is trimmed at its end has no white space there, and is a part of the text.
pub proof fn lemma_trim_end(s: Seq<char>)
    ensures
        trim_end_spec(s).len() <= s.len(),
        trim_end_spec(s) == s.take(trim_end_spec(s).len() as int),
        trim_end_spec(s).len() > 0 ==> !white(trim_end_spec(s).last()),
        trim_end_spec(trim_end_spec(s)) == trim_end_spec(s),
    decreases s.len(),
{
    if s.len() > 0 && white(s.last()) {
        lemma_trim_end(s.drop_last());
        let n = trim_end_spec(s).len() as int;
        assert(s.take(n) =~= s.drop_last().take(n));
    } else {
        assert(s.take(s.len() as int) =~= s);
    }
}

/// Nothing is left of white space.
pub proof fn lemma_trim_end_white(c: char)
    requires
        white(c),
    ensures
        trim_end_spec(seq![c]).len() == 0,
{
    let s = seq![c];
    assert(s.last() == c);
    assert(s.drop_last().len() == 0);
    assert(trim_end_spec(s.drop_last()).len() == 0);
}

/// It makes no difference which end is trimmed first.
pub proof fn lemma_trim_commutes(s: Seq<char>)
    ensures
        trim_start_spec(trim_end_spec(s)) == trim_end_spec(trim_start_spec(s)),
    decreases s.len(),
{
    if s.len() > 0 {
        let head = seq![s[0]];
        let rest = s.skip(1);
        assert(s =~= head + rest);
        lemma_trim_end_append(head, rest);
        lemma_trim_commutes(rest);
        let t = trim_end_spec(rest);
        if white(s[0]) {
            if t.len() > 0 {
                assert((head + t).skip(1) =~= t);
                assert((head + t)[0] == s[0]);
            } else {
                lemma_trim_end_white(s[0]);
                assert(trim_end_spec(head) =~= seq![]);
                assert(t =~= seq![]);
            }
        } else {
            if t.len() > 0 {
                assert((head + t)[0] == s[0]);
            } else {
                assert(head.last() == s[0]);
            }
        }
    }
}

/// White space in front does not survive trimming.
pub proof fn lemma_trim_drops_leading(c: char, s: Seq<char>)
    requires
        white(c),
    ensures
        trim_spec(seq![c] + s) == trim_spec(s),
{
    assert((seq![c] + s).skip(1) =~= s);
    assert((seq![c] + s)[0] == c);
}

/// White space at the end does not change what is left when both ends are trimmed.
pub proof fn lemma_trim_of_trim_end(s: Seq<char>)
    ensures
        trim_spec(trim_end_spec(s)) == trim_spec(s),
{
    lemma_trim_commutes(s);
    lemma_trim_commutes(trim_end_spec(s));
    lemma_trim_end(s);
    lemma_trim_end(trim_start_spec(s));
}

/// White space at the end is trimmed away.
pub proof fn lemma_trim_drops_trailing(s: Seq<char>, c: char)
    requires
        white(c),
    ensures
        trim_spec(s + seq![c]) == trim_spec(s),
{
    let t = s + seq![c];
    assert(t.last() == c);
    assert(t.drop_last() =~= s);
    lemma_trim_commutes(t);
    lemma_trim_commutes(s);
}

/// The order of texts: by their first difference, a text before what it starts.
pub open spec fn text_lt(a: Seq<char>, b: Seq<char>) -> bool
    decreases a.len(),
{
    if b.len() == 0 {
        false
    } else if a.len() == 0 {
        true
    } else if a[0] != b[0] {
        a[0] < b[0]
    } else {
        text_lt(a.skip(1), b.skip(1))
    }
}

/// The order of texts is strict and total.
pub proof fn lemma_text_order(a: Seq<char>, b: Seq<char>, c: Seq<char>)
    ensures
        !text_lt(a, a),
        text_lt(a, b) && text_lt(b, c) ==> text_lt(a, c),
        a != b ==> text_lt(a, b) || text_lt(b, a),
        !(text_lt(a, b) && text_lt(b, a)),
    decreases a.len() + b.len() + c.len(),
{
    if a.len() > 0 && b.len() > 0 && c.len() > 0 {
        lemma_text_order(a.skip(1), b.skip(1), c.skip(1));
        if a[0] == b[0] && a.skip(1) == b.skip(1) {
            assert(a =~= seq![a[0]] + a.skip(1));
            assert(b =~= seq![b[0]] + b.skip(1));
        }
    } else if a.len() > 0 && b.len() > 0 {
        lemma_text_order(a.skip(1), b.skip(1), c);
        if a[0] == b[0] && a.skip(1) == b.skip(1) {
            assert(a =~= seq![a[0]] + a.skip(1));
            assert(b =~= seq![b[0]] + b.skip(1));
        }
    } else if a.len() > 0 && c.len() > 0 {
        lemma_text_order(a.skip(1), b, c.skip(1));
    } else if a.len() > 0 {
        lemma_text_order(a.skip(1), b, c);
    }
    if a.len() == 0 && b.len() == 0 {
        assert(a =~= b);
    }
}

/// Compares two texts.
pub fn text_before(a: &str, b: &str) -> (r: bool)
    ensures
        r == text_lt(a@, b@),
{
    let v = chars_of(a);
    let w = chars_of(b);
    let mut i: usize = 0;
    assert(a@.skip(0) =~= a@);
    assert(b@.skip(0) =~= b@);
    while i < v.len() && i < w.len()
        invariant
            v@ == a@,
            w@ == b@,
            0 <= i <= v@.len(),
            i <= w@.len(),
            text_lt(a@, b@) == text_lt(a@.skip(i as int), b@.skip(i as int)),
        decreases v@.len() - i,
    {
        assert(a@.skip(i as int).skip(1) =~= a@.skip(i + 1));
        assert(b@.skip(i as int).skip(1) =~= b@.skip(i + 1));
        if v[i] != w[i] {
            return v[i] < w[i];
        }
        i += 1;
    }
    i < w.len()
}

/// The texts stand in order, each once.
pub open spec fn strictly_sorted(v: Seq<Seq<char>>) -> bool {
    forall|i: int, j: int| 0 <= i < j < v.len() ==> text_lt(#[trigger] v[i], #[trigger] v[j])
}

/// Puts a text into a sorted list, unless the list holds it already.
pub fn insert_sorted(v: &mut Vec<String>, s: String)
    requires
        strictly_sorted(views(old(v)@)),
    ensures
        strictly_sorted(views(final(v)@)),
        forall|t: Seq<char>| #[trigger] views(final(v)@).contains(t) <==> views(old(v)@).contains(t) || t == s@,
{
    let ghost before = views(v@);
    let mut i: usize = 0;
    while i < v.len() && text_before(v[i].as_str(), s.as_str())
        invariant
            0 <= i <= v@.len(),
            before == views(v@),
            *v == *old(v),
            forall|j: int| 0 <= j < i ==> text_lt(#[trigger] before[j], s@),
        decreases v@.len() - i,
    {
        assert(before[i as int] == v@[i as int]@);
        i += 1;
    }
    if i < v.len() && same(v[i].as_str(), s.as_str()) {
        assert(before[i as int] == s@);
        return ;
    }
    let ghost key = s@;
    v.insert(i, s);
    let ghost after = views(v@);
    proof {
        assert(after =~= before.insert(i as int, key));
        assert forall|j: int| i <= j < before.len() implies text_lt(key, #[trigger] before[j]) by {
            assert(before[i as int] != key && !text_lt(before[i as int], key));
            lemma_text_order(before[i as int], key, before[j]);
            lemma_text_order(key, before[i as int], before[j]);
            if j > i {
                assert(text_lt(before[i as int], before[j]));
            }
        }
        assert forall|a: int, b: int| 0 <= a < b < after.len() implies text_lt(
            #[trigger] after[a],
            #[trigger] after[b],
        ) by {
            let x = if a < i { a } else { a - 1 };
            let y = if b < i { b } else { b - 1 };
            if a != i {
                assert(after[a] == before[x]);
            }
            if b != i {
                assert(after[b] == before[y]);
            }
        }
        assert forall|t: Seq<char>| #[trigger] after.contains(t) <==> before.contains(t) || t == key by {
            if after.contains(t) {
                let a = after.index_of(t);
                if a < i {
                    assert(before[a] == t);
                } else if a > i {
                    assert(before[a - 1] == t);
                }
            }
            if before.contains(t) {
                let a = before.index_of(t);
                assert(after[if a < i { a } else { a + 1 }] == t);
            }
            assert(after[i as int] == key);
        }
    }
}

} // verus!
