//! Character-level text helpers and their mathematical models.
use vstd::prelude::*;

verus! {

/// Concatenation of a sequence of strings, in order, with no separator.
pub open spec fn concat(parts: Seq<Seq<char>>) -> Seq<char>
    decreases parts.len(),
{
    if parts.len() == 0 {
        Seq::empty()
    } else {
        concat(parts.drop_last()) + parts.last()
    }
}

/// The strings of `parts` joined with `sep` between consecutive items.
pub open spec fn join(parts: Seq<Seq<char>>, sep: Seq<char>) -> Seq<char>
    decreases parts.len(),
{
    if parts.len() == 0 {
        Seq::empty()
    } else if parts.len() == 1 {
        parts[0]
    } else {
        join(parts.drop_last(), sep) + sep + parts.last()
    }
}

/// Unicode `White_Space`, the set of characters that `char::is_whitespace` accepts.
pub open spec fn is_white(c: char) -> bool {
    ('\u{9}' <= c && c <= '\u{d}') || c == ' ' || c == '\u{85}' || c == '\u{a0}'
        || c == '\u{1680}' || ('\u{2000}' <= c && c <= '\u{200a}') || c == '\u{2028}'
        || c == '\u{2029}' || c == '\u{202f}' || c == '\u{205f}' || c == '\u{3000}'
}

/// `s` without its trailing whitespace.
pub open spec fn trim_end(s: Seq<char>) -> Seq<char>
    decreases s.len(),
{
    if s.len() > 0 && is_white(s.last()) {
        trim_end(s.drop_last())
    } else {
        s
    }
}

/// Whether the scan of `s` ends between a `<` and the next `>`.
pub open spec fn inside_tag(s: Seq<char>) -> bool
    decreases s.len(),
{
    if s.len() == 0 {
        false
    } else if s.last() == '<' {
        true
    } else if s.last() == '>' {
        false
    } else {
        inside_tag(s.drop_last())
    }
}

pub open spec fn nbsp() -> Seq<char> {
    "&nbsp;"@
}

/// `s` with every space that is not inside an HTML tag replaced by `&nbsp;`.
pub open spec fn spaces_to_nbsp(s: Seq<char>) -> Seq<char>
    decreases s.len(),
{
    if s.len() == 0 {
        Seq::empty()
    } else {
        let c = s.last();
        let prev = spaces_to_nbsp(s.drop_last());
        if c == ' ' && !inside_tag(s.drop_last()) {
            prev + nbsp()
        } else {
            prev.push(c)
        }
    }
}

pub open spec fn br() -> Seq<char> {
    "<br/>\n"@
}

/// `s` with every newline replaced by a break tag followed by a newline.
pub open spec fn newlines_to_br(s: Seq<char>) -> Seq<char>
    decreases s.len(),
{
    if s.len() == 0 {
        Seq::empty()
    } else if s.last() == '\n' {
        newlines_to_br(s.drop_last()) + br()
    } else {
        newlines_to_br(s.drop_last()).push(s.last())
    }
}

pub open spec fn digit(d: nat) -> char {
    if d == 0 { '0' } else if d == 1 { '1' } else if d == 2 { '2' } else if d == 3 { '3' }
    else if d == 4 { '4' } else if d == 5 { '5' } else if d == 6 { '6' } else if d == 7 { '7' }
    else if d == 8 { '8' } else { '9' }
}

/// The decimal notation of `n`, without leading zeros.
pub open spec fn decimal(n: nat) -> Seq<char>
    decreases n,
{
    if n < 10 {
        seq![digit(n)]
    } else {
        decimal(n / 10).push(digit(n % 10))
    }
}

/// Relies on `str::chars`: the characters of `s` in order.
#[verifier::external_body]
pub(crate) fn chars_of(s: &str) -> (r: Vec<char>)
    ensures
        r@ == s@,
{
    s.chars().collect()
}

/// Relies on `String::push`: appends one character.
#[verifier::external_body]
pub(crate) fn push_char(s: &mut String, c: char)
    ensures
        final(s)@ == old(s)@.push(c),
{
    s.push(c)
}

/// Whether two strings hold the same characters.
pub fn str_eq(a: &str, b: &str) -> (r: bool)
    ensures
        r == (a@ == b@),
{
    let x = chars_of(a);
    let y = chars_of(b);
    if x.len() != y.len() {
        return false;
    }
    let mut i: usize = 0;
    while i < x.len()
        invariant
            x@ == a@,
            y@ == b@,
            x.len() == y.len(),
            i <= x.len(),
            x@.take(i as int) == y@.take(i as int),
        decreases x.len() - i,
    {
        if x[i] != y[i] {
            assert(a@[i as int] != b@[i as int]);
            return false;
        }
        assert(x@.take(i + 1) =~= x@.take(i as int).push(x@[i as int]));
        assert(y@.take(i + 1) =~= y@.take(i as int).push(y@[i as int]));
        i = i + 1;
    }
    assert(x@ =~= x@.take(i as int));
    assert(y@ =~= y@.take(i as int));
    true
}

/// Whether `s` begins with `prefix`.
pub fn starts_with(s: &str, prefix: &str) -> (r: bool)
    ensures
        r == (prefix@.len() <= s@.len() && s@.take(prefix@.len() as int) == prefix@),
{
    let x = chars_of(s);
    let p = chars_of(prefix);
    if p.len() > x.len() {
        return false;
    }
    let mut i: usize = 0;
    while i < p.len()
        invariant
            x@ == s@,
            p@ == prefix@,
            p.len() <= x.len(),
            i <= p.len(),
            x@.take(i as int) == p@.take(i as int),
        decreases p.len() - i,
    {
        if x[i] != p[i] {
            assert(s@.take(p@.len() as int)[i as int] != prefix@[i as int]);
            return false;
        }
        assert(x@.take(i + 1) =~= x@.take(i as int).push(x@[i as int]));
        assert(p@.take(i + 1) =~= p@.take(i as int).push(p@[i as int]));
        i = i + 1;
    }
    assert(p@ =~= p@.take(i as int));
    true
}

/// `s` without its trailing whitespace, as `str::trim_end` gives it.
pub fn trim_end_of(s: &str) -> (r: String)
    ensures
        r@ == trim_end(s@),
{
    let x = chars_of(s);
    let mut k: usize = x.len();
    assert(x@.take(k as int) =~= x@);
    while k > 0 && is_white_char(x[k - 1])
        invariant
            x@ == s@,
            k <= x.len(),
            trim_end(x@.take(k as int)) == trim_end(s@),
        decreases k,
    {
        assert(x@.take(k - 1) =~= x@.take(k as int).drop_last());
        k = k - 1;
    }
    assert(trim_end(x@.take(k as int)) == x@.take(k as int)) by {
        if k > 0 {
            assert(x@.take(k as int).last() == x@[k - 1]);
        }
    }
    let mut r = String::new();
    let mut i: usize = 0;
    while i < k
        invariant
            x@ == s@,
            k <= x.len(),
            i <= k,
            r@ == x@.take(i as int),
        decreases k - i,
    {
        push_char(&mut r, x[i]);
        assert(x@.take(i + 1) =~= x@.take(i as int).push(x@[i as int]));
        i = i + 1;
    }
    r
}

/// Executable form of `is_white`.
pub fn is_white_char(c: char) -> (r: bool)
    ensures
        r == is_white(c),
{
    ('\u{9}' <= c && c <= '\u{d}') || c == ' ' || c == '\u{85}' || c == '\u{a0}'
        || c == '\u{1680}' || ('\u{2000}' <= c && c <= '\u{200a}') || c == '\u{2028}'
        || c == '\u{2029}' || c == '\u{202f}' || c == '\u{205f}' || c == '\u{3000}'
}

/// Replaces every newline of `s` with a break tag and a newline.
pub fn replace_newlines(s: &str) -> (r: String)
    ensures
        r@ == newlines_to_br(s@),
{
    let x = chars_of(s);
    let mut r = String::new();
    let mut i: usize = 0;
    while i < x.len()
        invariant
            x@ == s@,
            i <= x.len(),
            r@ == newlines_to_br(x@.take(i as int)),
        decreases x.len() - i,
    {
        assert(x@.take(i + 1).drop_last() =~= x@.take(i as int));
        if x[i] == '\n' {
            r.append("<br/>\n");
        } else {
            push_char(&mut r, x[i]);
        }
        i = i + 1;
    }
    assert(x@ =~= x@.take(x@.len() as int));
    r
}

/// The decimal notation of `n`.
pub fn decimal_of(n: usize) -> (r: String)
    ensures
        r@ == decimal(n as nat),
    decreases n,
{
    let d = n % 10;
    let c: char = if d == 0 { '0' } else if d == 1 { '1' } else if d == 2 { '2' }
        else if d == 3 { '3' } else if d == 4 { '4' } else if d == 5 { '5' }
        else if d == 6 { '6' } else if d == 7 { '7' } else if d == 8 { '8' } else { '9' };
    let mut r = if n < 10 { String::new() } else { decimal_of(n / 10) };
    push_char(&mut r, c);
    proof {
        if n < 10 {
            assert(r@ =~= seq![digit(n as nat)]);
        }
    }
    r
}

} // verus!

verus! {

/// Replaces every space of `input` that is not inside an HTML tag with `&nbsp;`.
pub fn convert_space(input: &str) -> (r: String)
    ensures
        r@ == spaces_to_nbsp(input@),
{
    let x = chars_of(input);
    let mut flag = false;
    let mut output = String::new();
    let mut i: usize = 0;
    while i < x.len()
        invariant
            x@ == input@,
            i <= x.len(),
            output@ == spaces_to_nbsp(x@.take(i as int)),
            flag == inside_tag(x@.take(i as int)),
        decreases x.len() - i,
    {
        let c = x[i];
        assert(x@.take(i + 1).drop_last() =~= x@.take(i as int));
        if c == '<' {
            flag = true;
        } else if c == '>' {
            flag = false;
        } else if c == ' ' && !flag {
            output.append("&nbsp;");
            i = i + 1;
            continue;
        }
        push_char(&mut output, c);
        i = i + 1;
    }
    assert(x@.take(i as int) =~= x@);
    output
}

} // verus!

verus! {

/// A space after an unclosed `<` is kept; a space anywhere else becomes `&nbsp;`.
pub proof fn lemma_space_by_tag(before: Seq<char>)
    ensures
        inside_tag(before) ==> spaces_to_nbsp(before.push(' ')) == spaces_to_nbsp(before).push(' '),
        !inside_tag(before) ==> spaces_to_nbsp(before.push(' ')) == spaces_to_nbsp(before) + nbsp(),
{
    assert(before.push(' ').drop_last() =~= before);
}

} // verus!

verus! {

/// The lines of `s`: each ends just after a newline, and a last piece without
/// a newline is a line too.
pub open spec fn lines(s: Seq<char>) -> Seq<Seq<char>>
    decreases s.len(),
{
    if s.len() == 0 {
        Seq::empty()
    } else {
        let prev = lines(s.drop_last());
        if prev.len() == 0 || prev.last().last() == '\n' {
            prev.push(seq![s.last()])
        } else {
            prev.drop_last().push(prev.last().push(s.last()))
        }
    }
}

/// The lines of `s`, each with its newline.
pub fn split_lines(s: &str) -> (r: Vec<String>)
    ensures
        r@.map_values(|l: String| l@) == lines(s@),
{
    let x = chars_of(s);
    let mut done: Vec<String> = Vec::new();
    let mut cur = String::new();
    let mut i: usize = 0;
    while i < x.len()
        invariant
            x@ == s@,
            i <= x.len(),
            forall|k: int| 0 <= k < done@.len() ==> (#[trigger] done@[k])@.len() > 0 && done@[k]@.last() == '\n',
            forall|j: int| 0 <= j < cur@.len() ==> cur@[j] != '\n',
            lines(x@.take(i as int)) == done@.map_values(|l: String| l@)
                + (if cur@.len() > 0 { seq![cur@] } else { Seq::empty() }),
        decreases x.len() - i,
    {
        let c = x[i];
        let ghost d = done@.map_values(|l: String| l@);
        let ghost old_cur = cur@;
        assert(x@.take(i + 1).drop_last() =~= x@.take(i as int));
        assert(x@.take(i + 1).last() == c);
        proof {
            if old_cur.len() > 0 {
                assert((d + seq![old_cur]).drop_last() =~= d);
            } else {
                assert(d + Seq::<Seq<char>>::empty() =~= d);
                if d.len() > 0 {
                    assert(d.last() == done@[d.len() - 1]@);
                }
            }
        }
        push_char(&mut cur, c);
        if c == '\n' {
            let ghost line = cur@;
            done.push(cur);
            cur = String::new();
            assert(done@.map_values(|l: String| l@) =~= d.push(line));
        }
        proof {
            let nd = done@.map_values(|l: String| l@);
            let rhs = nd + (if cur@.len() > 0 { seq![cur@] } else { Seq::empty() });
            if old_cur.len() > 0 {
                assert(lines(x@.take(i + 1)) =~= d.push(old_cur.push(c)));
            } else {
                assert(lines(x@.take(i + 1)) =~= d.push(seq![c]));
                assert(old_cur.push(c) =~= seq![c]);
            }
            assert(lines(x@.take(i + 1)) =~= rhs);
        }
        i = i + 1;
    }
    assert(x@.take(i as int) =~= x@);
    let ghost d = done@.map_values(|l: String| l@);
    if cur.as_str().unicode_len() > 0 {
        let ghost c2 = cur@;
        done.push(cur);
        assert(done@.map_values(|l: String| l@) =~= d + seq![c2]);
    } else {
        assert(d + Seq::<Seq<char>>::empty() =~= d);
    }
    done
}

} // verus!

verus! {

proof fn lemma_outside_without_open(s: Seq<char>)
    requires
        forall|i: int| 0 <= i < s.len() ==> s[i] != '<',
    ensures
        !inside_tag(s),
    decreases s.len(),
{
    if s.len() > 0 {
        lemma_outside_without_open(s.drop_last());
    }
}

/// Where no tag is opened, no space is left: every one became `&nbsp;`.
pub proof fn lemma_no_bare_space(s: Seq<char>)
    requires
        forall|i: int| 0 <= i < s.len() ==> s[i] != '<',
    ensures
        forall|j: int| 0 <= j < spaces_to_nbsp(s).len() ==> spaces_to_nbsp(s)[j] != ' ',
    decreases s.len(),
{
    if s.len() > 0 {
        let p = s.drop_last();
        lemma_no_bare_space(p);
        lemma_outside_without_open(p);
        reveal_strlit("&nbsp;");
        let r = spaces_to_nbsp(s);
        let q = spaces_to_nbsp(p);
        assert forall|j: int| 0 <= j < r.len() implies r[j] != ' ' by {
            if j >= q.len() && s.last() == ' ' {
                assert(r[j] == nbsp()[j - q.len()]);
            }
        }
    }
}

} // verus!
