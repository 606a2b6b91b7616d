use vstd::prelude::*;

verus! {

/// `String::push` of std appends the character to the string.
pub assume_specification[ String::push ](s: &mut String, c: char)
    ensures
        final(s)@ == old(s)@.push(c),
;

/// The characters of `s`, in order.
pub fn to_chars(s: &str) -> (out: Vec<char>)
    ensures
        out@ == s@,
{
    let mut out: Vec<char> = Vec::new();
    let mut it = s.chars();
    for c in iter: it
        invariant
            out@ == iter.seq().take(iter.index as int),
    {
        out.push(c);
    }
    out
}

/// The string made of the characters `chars[from..to]`.
pub fn from_chars(chars: &Vec<char>, from: usize, to: usize) -> (out: String)
    requires
        from <= to <= chars@.len(),
    ensures
        out@ == chars@.subrange(from as int, to as int),
{
    let mut out = String::new();
    let mut i: usize = from;
    while i < to
        invariant
            from <= i <= to <= chars@.len(),
            out@ == chars@.subrange(from as int, i as int),
        decreases to - i,
    {
        out.push(chars[i]);
        i += 1;
        assert(chars@.subrange(from as int, i as int) == chars@.subrange(from as int, i - 1).push(
            chars@[i - 1],
        ));
    }
    out
}

/// Whether `c` has the Unicode property White_Space.
pub open spec fn is_space(c: char) -> bool {
    let u = c as u32;
    ||| 0x09 <= u <= 0x0d
    ||| u == 0x20
    ||| u == 0x85
    ||| u == 0xa0
    ||| u == 0x1680
    ||| 0x2000 <= u <= 0x200a
    ||| u == 0x2028
    ||| u == 0x2029
    ||| u == 0x202f
    ||| u == 0x205f
    ||| u == 0x3000
}

/// A set of characters that can be stripped from the ends of a text.
#[derive(Clone, Copy, Debug)]
pub enum CharSet {
    /// White space.
    Space,
    /// The double quote.
    Quote,
    /// The slash.
    Slash,
}

impl CharSet {
    /// Whether `c` is a character of the set.
    pub open spec fn contains(self, c: char) -> bool {
        match self {
            CharSet::Space => is_space(c),
            CharSet::Quote => c == '"',
            CharSet::Slash => c == '/',
        }
    }

    /// Whether `c` is a character of the set.
    pub fn has(self, c: char) -> (r: bool)
        ensures
            r == self.contains(c),
    {
        match self {
            CharSet::Space => {
                let u: u32 = c as u32;
                (0x09 <= u && u <= 0x0d) || u == 0x20 || u == 0x85 || u == 0xa0 || u == 0x1680
                    || (0x2000 <= u && u <= 0x200a) || u == 0x2028 || u == 0x2029 || u == 0x202f
                    || u == 0x205f || u == 0x3000
            },
            CharSet::Quote => c == '"',
            CharSet::Slash => c == '/',
        }
    }
}

/// `s` without its longest prefix of characters of `set`.
pub open spec fn trim_start(s: Seq<char>, set: CharSet) -> Seq<char>
    decreases s.len(),
{
    if s.len() > 0 && set.contains(s.first()) {
        trim_start(s.drop_first(), set)
    } else {
        s
    }
}

/// `s` without its longest suffix of characters of `set`.
pub open spec fn trim_end(s: Seq<char>, set: CharSet) -> Seq<char>
    decreases s.len(),
{
    if s.len() > 0 && set.contains(s.last()) {
        trim_end(s.drop_last(), set)
    } else {
        s
    }
}

/// `s` stripped of the characters of `set` at both ends.
pub open spec fn trim(s: Seq<char>, set: CharSet) -> Seq<char> {
    trim_end(trim_start(s, set), set)
}

/// The bounds of `trim_start` of `chars[from..to]`.
pub fn trim_start_range(chars: &Vec<char>, from: usize, to: usize, set: CharSet) -> (a: usize)
    requires
        from <= to <= chars@.len(),
    ensures
        from <= a <= to,
        chars@.subrange(a as int, to as int) == trim_start(
            chars@.subrange(from as int, to as int),
            set,
        ),
{
    let mut a: usize = from;
    while a < to && set.has(chars[a])
        invariant
            from <= a <= to <= chars@.len(),
            trim_start(chars@.subrange(from as int, to as int), set) == trim_start(
                chars@.subrange(a as int, to as int),
                set,
            ),
        decreases to - a,
    {
        assert(chars@.subrange(a as int, to as int).drop_first() == chars@.subrange(
            a + 1,
            to as int,
        ));
        a += 1;
    }
    a
}

/// The bounds of `trim_end` of `chars[from..to]`.
pub fn trim_end_range(chars: &Vec<char>, from: usize, to: usize, set: CharSet) -> (b: usize)
    requires
        from <= to <= chars@.len(),
    ensures
        from <= b <= to,
        chars@.subrange(from as int, b as int) == trim_end(
            chars@.subrange(from as int, to as int),
            set,
        ),
{
    let mut b: usize = to;
    while from < b && set.has(chars[b - 1])
        invariant
            from <= b <= to <= chars@.len(),
            trim_end(chars@.subrange(from as int, to as int), set) == trim_end(
                chars@.subrange(from as int, b as int),
                set,
            ),
        decreases b - from,
    {
        assert(chars@.subrange(from as int, b as int).drop_last() == chars@.subrange(
            from as int,
            b - 1,
        ));
        b -= 1;
    }
    b
}

/// The bounds of `trim` of `chars[from..to]`.
pub fn trim_range(chars: &Vec<char>, from: usize, to: usize, set: CharSet) -> (r: (usize, usize))
    requires
        from <= to <= chars@.len(),
    ensures
        from <= r.0 <= r.1 <= to,
        chars@.subrange(r.0 as int, r.1 as int) == trim(chars@.subrange(from as int, to as int), set),
{
    let a = trim_start_range(chars, from, to, set);
    let b = trim_end_range(chars, a, to, set);
    (a, b)
}

/// The position of the first `c` in `s`, or the length of `s` where it holds none.
pub open spec fn first_index(s: Seq<char>, c: char) -> int
    decreases s.len(),
{
    if s.len() == 0 || s.first() == c {
        0
    } else {
        1 + first_index(s.drop_first(), c)
    }
}

/// `first_index` lies within the text, at a `c` where the text holds one, and
/// behind no other.
pub proof fn lemma_first_index(s: Seq<char>, c: char)
    ensures
        0 <= first_index(s, c) <= s.len(),
        first_index(s, c) < s.len() ==> s[first_index(s, c)] == c,
        forall|j: int| 0 <= j < first_index(s, c) ==> s[j] != c,
    decreases s.len(),
{
    if s.len() == 0 || s.first() == c {
    } else {
        lemma_first_index(s.drop_first(), c);
        assert forall|j: int| 0 <= j < first_index(s, c) implies s[j] != c by {
            if j > 0 {
                assert(s[j] == s.drop_first()[j - 1]);
            }
        }
    }
}

/// The position of the first `c` in `chars[from..to]`, or `to`.
pub fn find_char(chars: &Vec<char>, from: usize, to: usize, c: char) -> (i: usize)
    requires
        from <= to <= chars@.len(),
    ensures
        from <= i <= to,
        i - from == first_index(chars@.subrange(from as int, to as int), c),
{
    let mut i: usize = from;
    while i < to && chars[i] != c
        invariant
            from <= i <= to <= chars@.len(),
            first_index(chars@.subrange(from as int, to as int), c) == (i - from) + first_index(
                chars@.subrange(i as int, to as int),
                c,
            ),
        decreases to - i,
    {
        assert(chars@.subrange(i as int, to as int).drop_first() == chars@.subrange(
            i + 1,
            to as int,
        ));
        i += 1;
    }
    i
}

/// The bracket depth after `c`, where the depth before it is `depth`. A closing
/// bracket that nothing opened leaves the depth at zero.
pub open spec fn nest_step(depth: nat, c: char) -> nat {
    if c == '(' || c == '[' || c == '{' {
        depth + 1
    } else if (c == ')' || c == ']' || c == '}') && depth > 0 {
        (depth - 1) as nat
    } else {
        depth
    }
}

/// The bracket depth at the end of `s`.
pub open spec fn nesting(s: Seq<char>) -> nat
    decreases s.len(),
{
    if s.len() == 0 {
        0
    } else {
        nest_step(nesting(s.drop_last()), s.last())
    }
}

/// Whether `s[i]` is a comma outside every bracket.
pub open spec fn is_top_level_comma(s: Seq<char>, i: int) -> bool {
    0 <= i < s.len() && s[i] == ',' && nesting(s.take(i)) == 0
}

/// The position of the first comma of `s` outside every bracket, or the length
/// of `s` where it holds none.
#[verifier::opaque]
pub open spec fn first_top_level_comma(s: Seq<char>) -> int {
    if exists|i: int| is_top_level_comma(s, i) {
        choose|i: int|
            is_top_level_comma(s, i) && forall|j: int| 0 <= j < i ==> !is_top_level_comma(s, j)
    } else {
        s.len() as int
    }
}

/// A comma outside every bracket with none before it is the first of them.
pub proof fn lemma_first_top_level_comma(s: Seq<char>, i: int)
    requires
        is_top_level_comma(s, i),
        forall|j: int| 0 <= j < i ==> !is_top_level_comma(s, j),
    ensures
        first_top_level_comma(s) == i,
{
    reveal(first_top_level_comma);
    let k = first_top_level_comma(s);
    assert(is_top_level_comma(s, k) && forall|j: int| 0 <= j < k ==> !is_top_level_comma(s, j));
    if k < i {
        assert(!is_top_level_comma(s, k));
    }
    if i < k {
        assert(!is_top_level_comma(s, i));
    }
}

/// The pieces of `s` between its commas outside every bracket.
pub open spec fn split_top_level(s: Seq<char>) -> Seq<Seq<char>>
    decreases s.len(),
{
    let i = first_top_level_comma(s);
    if 0 <= i < s.len() {
        seq![s.take(i)] + split_top_level(s.skip(i + 1))
    } else {
        seq![s]
    }
}

/// The texts that the index pairs `cuts` take out of `chars`.
pub open spec fn ranges_of(chars: Seq<char>, cuts: Seq<(usize, usize)>) -> Seq<Seq<char>> {
    Seq::new(cuts.len(), |k: int| chars.subrange(cuts[k].0 as int, cuts[k].1 as int))
}

/// A text with a first comma outside every bracket splits there.
proof fn lemma_split_at_comma(s: Seq<char>, i: int)
    requires
        is_top_level_comma(s, i),
        forall|j: int| 0 <= j < i ==> !is_top_level_comma(s, j),
    ensures
        split_top_level(s) == seq![s.take(i)] + split_top_level(s.skip(i + 1)),
{
    lemma_first_top_level_comma(s, i);
}

/// A text without a comma outside every bracket is one piece.
proof fn lemma_split_without_comma(s: Seq<char>)
    requires
        forall|j: int| 0 <= j < s.len() ==> !is_top_level_comma(s, j),
    ensures
        split_top_level(s) == seq![s],
{
    reveal(first_top_level_comma);
    if exists|j: int| is_top_level_comma(s, j) {
        let j = choose|j: int| is_top_level_comma(s, j);
        assert(!is_top_level_comma(s, j));
    }
}

/// One more pair of indices takes one more text out.
proof fn lemma_ranges_push(chars: Seq<char>, cuts: Seq<(usize, usize)>, a: usize, b: usize)
    ensures
        ranges_of(chars, cuts.push((a, b))) == ranges_of(chars, cuts) + seq![
            chars.subrange(a as int, b as int),
        ],
{
    assert(ranges_of(chars, cuts.push((a, b))) =~= ranges_of(chars, cuts) + seq![
        chars.subrange(a as int, b as int),
    ]);
}

/// One more character changes the bracket depth by one step.
proof fn lemma_nesting_push(s: Seq<char>, from: int, i: int)
    requires
        0 <= from <= i < s.len(),
    ensures
        nesting(s.subrange(from, i + 1)) == nest_step(nesting(s.subrange(from, i)), s[i]),
{
    assert(s.subrange(from, i + 1).drop_last() == s.subrange(from, i));
}

/// One step of the scan for commas: `old_done` pieces lie before `start`, and
/// `s[i]` is a comma outside every bracket of `s[start..to]`.
proof fn lemma_scan_comma(
    whole: Seq<Seq<char>>,
    done: Seq<Seq<char>>,
    s: Seq<char>,
    start: int,
    i: int,
    to: int,
)
    requires
        0 <= start <= i < to <= s.len(),
        done + split_top_level(s.subrange(start, to)) == whole,
        forall|j: int| 0 <= j < i - start ==> !is_top_level_comma(s.subrange(start, to), j),
        s[i] == ',',
        nesting(s.subrange(start, i)) == 0,
    ensures
        done + seq![s.subrange(start, i)] + split_top_level(s.subrange(i + 1, to)) == whole,
{
    let rest = s.subrange(start, to);
    assert(rest.take(i - start) == s.subrange(start, i));
    assert(rest.skip(i - start + 1) == s.subrange(i + 1, to));
    assert(is_top_level_comma(rest, i - start));
    lemma_split_at_comma(rest, i - start);
    assert(done + seq![s.subrange(start, i)] + split_top_level(s.subrange(i + 1, to)) =~= done + (
    seq![s.subrange(start, i)] + split_top_level(s.subrange(i + 1, to))));
}

/// One step of the scan for commas, where `s[i]` is no comma outside every bracket.
proof fn lemma_scan_other(s: Seq<char>, start: int, i: int, to: int)
    requires
        0 <= start <= i < to <= s.len(),
        forall|j: int| 0 <= j < i - start ==> !is_top_level_comma(s.subrange(start, to), j),
        !(s[i] == ',' && nesting(s.subrange(start, i)) == 0),
    ensures
        forall|j: int| 0 <= j < i + 1 - start ==> !is_top_level_comma(s.subrange(start, to), j),
{
    let rest = s.subrange(start, to);
    assert(rest.take(i - start) == s.subrange(start, i));
}

/// The bounds of the pieces of `chars[from..to]` between its commas outside every bracket.
pub fn split_top_level_ranges(chars: &Vec<char>, from: usize, to: usize) -> (cuts: Vec<
    (usize, usize),
>)
    requires
        from <= to <= chars@.len(),
    ensures
        forall|k: int| 0 <= k < cuts@.len() ==> from <= (#[trigger] cuts@[k]).0 <= cuts@[k].1 <= to,
        ranges_of(chars@, cuts@) == split_top_level(chars@.subrange(from as int, to as int)),
{
    let mut cuts: Vec<(usize, usize)> = Vec::new();
    let mut start: usize = from;
    let mut i: usize = from;
    let mut depth: usize = 0;
    let ghost whole = split_top_level(chars@.subrange(from as int, to as int));
    assert(ranges_of(chars@, cuts@) + split_top_level(chars@.subrange(start as int, to as int))
        =~= whole);
    assert(chars@.subrange(start as int, i as int).len() == 0);
    while i < to
        invariant
            from <= start <= i <= to <= chars@.len(),
            forall|k: int| 0 <= k < cuts@.len() ==> from <= (#[trigger] cuts@[k]).0 <= cuts@[k].1 <= to,
            ranges_of(chars@, cuts@) + split_top_level(chars@.subrange(start as int, to as int))
                == whole,
            forall|j: int|
                0 <= j < i - start ==> !is_top_level_comma(
                    chars@.subrange(start as int, to as int),
                    j,
                ),
            depth == nesting(chars@.subrange(start as int, i as int)),
            depth <= i - start,
        decreases to - i,
    {
        let c = chars[i];
        if c == ',' && depth == 0 {
            proof {
                lemma_scan_comma(whole, ranges_of(chars@, cuts@), chars@, start as int, i as int, to as int);
                lemma_ranges_push(chars@, cuts@, start, i);
            }
            cuts.push((start, i));
            start = i + 1;
            depth = 0;
            assert(chars@.subrange(start as int, start as int).len() == 0);
        } else {
            proof {
                lemma_scan_other(chars@, start as int, i as int, to as int);
                lemma_nesting_push(chars@, start as int, i as int);
            }
            if c == '(' || c == '[' || c == '{' {
                depth += 1;
            } else if (c == ')' || c == ']' || c == '}') && depth > 0 {
                depth -= 1;
            }
        }
        i += 1;
    }
    proof {
        lemma_split_without_comma(chars@.subrange(start as int, to as int));
        lemma_ranges_push(chars@, cuts@, start, to);
    }
    cuts.push((start, to));
    cuts
}

/// A text splits into one piece at least.
pub proof fn lemma_split_nonempty(s: Seq<char>)
    ensures
        split_top_level(s).len() >= 1,
{
}

/// The views of the strings of `v`.
pub open spec fn texts(v: Seq<String>) -> Seq<Seq<char>> {
    Seq::new(v.len(), |k: int| v[k]@)
}

/// Appends `chars[from..to]` to `out`.
pub fn push_range(out: &mut String, chars: &Vec<char>, from: usize, to: usize)
    requires
        from <= to <= chars@.len(),
    ensures
        final(out)@ == old(out)@ + chars@.subrange(from as int, to as int),
{
    let mut i: usize = from;
    assert(out@ == old(out)@ + chars@.subrange(from as int, i as int));
    while i < to
        invariant
            from <= i <= to <= chars@.len(),
            out@ == old(out)@ + chars@.subrange(from as int, i as int),
        decreases to - i,
    {
        out.push(chars[i]);
        i += 1;
        assert(chars@.subrange(from as int, i as int) == chars@.subrange(from as int, i - 1).push(
            chars@[i - 1],
        ));
        assert(out@ == old(out)@ + chars@.subrange(from as int, i as int));
    }
}

/// `s` without the round bracket that opens it and the one that closes it,
/// where it has them: one at the front and one at the end at most.
pub open spec fn without_brackets(s: Seq<char>) -> Seq<char> {
    let inner = if s.len() > 0 && s.first() == '(' {
        s.drop_first()
    } else {
        s
    };
    if inner.len() > 0 && inner.last() == ')' {
        inner.drop_last()
    } else {
        inner
    }
}

/// `s` without the round bracket that opens it and the one that closes it.
pub fn strip_brackets(s: &str) -> (out: String)
    ensures
        out@ == without_brackets(s@),
{
    let chars = to_chars(s);
    let n = chars.len();
    let from: usize = if n > 0 && chars[0] == '(' {
        1
    } else {
        0
    };
    let to: usize = if n > from && chars[n - 1] == ')' {
        n - 1
    } else {
        n
    };
    proof {
        let inner = chars@.subrange(from as int, n as int);
        assert(inner == if s@.len() > 0 && s@.first() == '(' {
            s@.drop_first()
        } else {
            s@
        });
        if inner.len() > 0 {
            assert(inner.last() == chars@[n - 1]);
        }
        assert(chars@.subrange(from as int, to as int) == without_brackets(s@));
    }
    from_chars(&chars, from, to)
}

/// The type written for a parameter that has no annotation.
pub open spec fn unknown_type() -> Seq<char> {
    seq!['u', 'n', 'k', 'n', 'o', 'w', 'n']
}

/// The type of a parameter, given the text `rest` behind its first colon: that
/// text as it stands, a default value with it, stripped of white space.
pub open spec fn annotation_of(rest: Seq<char>) -> Seq<char> {
    trim(rest, CharSet::Space)
}

/// The attribute that one parameter gives: its name, a colon, a space and its type.
pub open spec fn attribute_of(param: Seq<char>) -> Seq<char> {
    let p = trim(param, CharSet::Space);
    let colon = first_index(p, ':');
    let name = trim(p.take(colon), CharSet::Space);
    let ty = if colon < p.len() {
        annotation_of(p.skip(colon + 1))
    } else {
        unknown_type()
    };
    name + seq![':', ' '] + ty
}

/// The attributes that a constructor's parameter list gives: one for each
/// parameter but the first.
pub open spec fn attributes_of(params: Seq<char>) -> Seq<Seq<char>> {
    let pieces = split_top_level(params);
    Seq::new((pieces.len() - 1) as nat, |k: int| attribute_of(pieces[k + 1]))
}

/// The attribute that the parameter `chars[from..to]` gives.
pub fn format_attribute(chars: &Vec<char>, from: usize, to: usize) -> (out: String)
    requires
        from <= to <= chars@.len(),
    ensures
        out@ == attribute_of(chars@.subrange(from as int, to as int)),
{
    let (a, b) = trim_range(chars, from, to, CharSet::Space);
    let ghost p = chars@.subrange(a as int, b as int);
    let colon = find_char(chars, a, b, ':');
    assert(p.take(colon - a) == chars@.subrange(a as int, colon as int));
    let (n0, n1) = trim_range(chars, a, colon, CharSet::Space);
    let mut out = String::new();
    push_range(&mut out, chars, n0, n1);
    out.push(':');
    out.push(' ');
    if colon < b {
        let ghost rest = chars@.subrange(colon + 1, b as int);
        assert(p.skip(colon - a + 1) == rest);
        let (t0, t1) = trim_range(chars, colon + 1, b, CharSet::Space);
        push_range(&mut out, chars, t0, t1);
        assert(out@ == chars@.subrange(n0 as int, n1 as int) + seq![':', ' '] + annotation_of(rest));
    } else {
        out.push('u');
        out.push('n');
        out.push('k');
        out.push('n');
        out.push('o');
        out.push('w');
        out.push('n');
        assert(out@ == chars@.subrange(n0 as int, n1 as int) + seq![':', ' '] + unknown_type());
    }
    out
}

/// The attributes that the parameter list `params` of a constructor gives.
pub fn classify_attributes(params: &str) -> (out: Vec<String>)
    ensures
        texts(out@) == attributes_of(params@),
{
    let chars = to_chars(params);
    let cuts = split_top_level_ranges(&chars, 0, chars.len());
    assert(chars@.subrange(0, chars@.len() as int) == params@);
    let ghost pieces = split_top_level(params@);
    proof {
        lemma_split_nonempty(params@);
        assert(ranges_of(chars@, cuts@).len() == cuts@.len());
    }
    let mut out: Vec<String> = Vec::new();
    let mut k: usize = 1;
    while k < cuts.len()
        invariant
            1 <= k <= cuts@.len(),
            ranges_of(chars@, cuts@) == pieces,
            forall|j: int| 0 <= j < cuts@.len() ==> (#[trigger] cuts@[j]).0 <= cuts@[j].1 <= chars@.len(),
            out@.len() == k - 1,
            forall|j: int| 0 <= j < out@.len() ==> (#[trigger] out@[j])@ == attribute_of(pieces[j + 1]),
        decreases cuts@.len() - k,
    {
        let (a, b) = cuts[k];
        assert(pieces[k as int] == chars@.subrange(a as int, b as int));
        let attr = format_attribute(&chars, a, b);
        out.push(attr);
        k += 1;
    }
    assert(texts(out@) =~= attributes_of(params@));
    out
}

/// The texts `parts` with `sep` between each two neighbours.
pub open spec fn join(parts: Seq<Seq<char>>, sep: Seq<char>) -> Seq<char>
    decreases parts.len(),
{
    if parts.len() == 0 {
        Seq::empty()
    } else if parts.len() == 1 {
        parts[0]
    } else {
        join(parts.drop_last(), sep) + sep + parts.last()
    }
}

/// The strings `parts` with `sep` between each two neighbours.
pub fn join_texts(parts: &Vec<String>, sep: &str) -> (out: String)
    ensures
        out@ == join(texts(parts@), sep@),
{
    let mut out = String::new();
    let mut k: usize = 0;
    while k < parts.len()
        invariant
            k <= parts@.len(),
            out@ == join(texts(parts@).take(k as int), sep@),
        decreases parts@.len() - k,
    {
        let ghost before = texts(parts@).take(k as int);
        let ghost after = texts(parts@).take(k + 1);
        assert(after.drop_last() == before);
        assert(after.last() == parts@[k as int]@);
        if k > 0 {
            out.append(sep);
        } else {
            assert(out@ + parts@[k as int]@ == parts@[k as int]@);
        }
        out.append(parts[k].as_str());
        k += 1;
    }
    assert(texts(parts@).take(k as int) == texts(parts@));
    out
}

/// Whether two texts hold the same characters.
pub fn same_text(a: &str, b: &str) -> (r: bool)
    ensures
        r == (a@ == b@),
{
    let x = to_chars(a);
    let y = to_chars(b);
    if x.len() != y.len() {
        return false;
    }
    let mut k: usize = 0;
    while k < x.len()
        invariant
            k <= x@.len() == y@.len(),
            x@ == a@,
            y@ == b@,
            forall|j: int| 0 <= j < k ==> x@[j] == y@[j],
        decreases x@.len() - k,
    {
        if x[k] != y[k] {
            assert(a@[k as int] != b@[k as int]);
            return false;
        }
        k += 1;
    }
    assert(x@ =~= y@);
    true
}

/// Whether one of the strings of `list` holds the characters of `s`.
pub fn holds_text(list: &Vec<String>, s: &str) -> (r: bool)
    ensures
        r == texts(list@).contains(s@),
{
    let mut k: usize = 0;
    while k < list.len()
        invariant
            k <= list@.len(),
            forall|j: int| 0 <= j < k ==> list@[j]@ != s@,
        decreases list@.len() - k,
    {
        if same_text(list[k].as_str(), s) {
            assert(texts(list@)[k as int] == s@);
            return true;
        }
        k += 1;
    }
    assert forall|j: int| 0 <= j < texts(list@).len() implies texts(list@)[j] != s@ by {
        assert(texts(list@)[j] == list@[j]@);
    }
    false
}

/// The texts of `names`, each where it first occurs.
pub open spec fn distinct(names: Seq<Seq<char>>) -> Seq<Seq<char>>
    decreases names.len(),
{
    if names.len() == 0 {
        Seq::empty()
    } else {
        let before = distinct(names.drop_last());
        if before.contains(names.last()) {
            before
        } else {
            before.push(names.last())
        }
    }
}

/// `distinct` keeps every text, and each of them once.
pub proof fn lemma_distinct(names: Seq<Seq<char>>)
    ensures
        distinct(names).no_duplicates(),
        forall|name: Seq<char>|
            #![trigger distinct(names).contains(name)]
            #![trigger names.contains(name)]
            distinct(names).contains(name) <==> names.contains(name),
    decreases names.len(),
{
    if names.len() > 0 {
        let front = names.drop_last();
        let last = names.last();
        lemma_distinct(front);
        let before = distinct(front);
        let now = distinct(names);
        assert forall|name: Seq<char>|
            #![trigger now.contains(name)]
            #![trigger names.contains(name)]
            now.contains(name) <==> names.contains(name) by {
            if now.contains(name) {
                let k = choose|k: int| 0 <= k < now.len() && now[k] == name;
                if k < before.len() {
                    assert(before[k] == name);
                    assert(before.contains(name));
                    let j = choose|j: int| 0 <= j < front.len() && front[j] == name;
                    assert(names[j] == name);
                } else {
                    assert(names[names.len() - 1] == name);
                }
            }
            if names.contains(name) {
                let j = choose|j: int| 0 <= j < names.len() && names[j] == name;
                if j < front.len() {
                    assert(front[j] == name);
                    assert(front.contains(name));
                    let k = choose|k: int| 0 <= k < before.len() && before[k] == name;
                    assert(now[k] == name);
                } else {
                    if before.contains(name) {
                    } else {
                        assert(now[now.len() - 1] == name);
                    }
                }
            }
        }
    }
}

/// The position of the last `c` in `s`, or -1 where it holds none.
pub open spec fn last_index(s: Seq<char>, c: char) -> int
    decreases s.len(),
{
    if s.len() == 0 {
        -1
    } else if s.last() == c {
        s.len() - 1
    } else {
        last_index(s.drop_last(), c)
    }
}

/// The position of the last `c` in `chars[from..]`, counted from `from`, or
/// `None` where it holds none.
pub fn find_last(chars: &Vec<char>, from: usize, c: char) -> (r: Option<usize>)
    requires
        from <= chars@.len(),
    ensures
        match r {
            Some(i) => i == last_index(chars@.skip(from as int), c) && from + i < chars@.len(),
            None => last_index(chars@.skip(from as int), c) == -1,
        },
{
    let n = chars.len();
    let mut end: usize = n;
    let ghost s = chars@.skip(from as int);
    assert(s.take(s.len() as int) == s);
    while end > from
        invariant
            from <= end <= n == chars@.len(),
            s == chars@.skip(from as int),
            last_index(s, c) == last_index(s.take(end - from), c),
        decreases end - from,
    {
        let ghost part = s.take(end - from);
        assert(part.last() == chars@[end - 1]);
        assert(part.drop_last() == s.take(end - from - 1));
        if chars[end - 1] == c {
            return Some(end - 1 - from);
        }
        end -= 1;
    }
    None
}

/// Whether `s` ends with `suffix`.
pub open spec fn ends_with(s: Seq<char>, suffix: Seq<char>) -> bool {
    suffix.len() <= s.len() && s.skip(s.len() - suffix.len()) == suffix
}

/// Whether `s` ends with `suffix`.
pub fn has_suffix(s: &str, suffix: &str) -> (r: bool)
    ensures
        r == ends_with(s@, suffix@),
{
    let text = to_chars(s);
    let end = to_chars(suffix);
    if end.len() > text.len() {
        return false;
    }
    let n = text.len();
    let shift = n - end.len();
    let mut k: usize = 0;
    while k < end.len()
        invariant
            k <= end@.len(),
            shift + end@.len() == text@.len() == n,
            text@ == s@,
            end@ == suffix@,
            forall|j: int| 0 <= j < k ==> text@[shift + j] == end@[j],
        decreases end@.len() - k,
    {
        if text[shift + k] != end[k] {
            assert(s@.skip(shift as int)[k as int] != suffix@[k as int]);
            return false;
        }
        k += 1;
    }
    assert(s@.skip(shift as int) =~= suffix@);
    true
}

/// Whether `pattern` stands in `s` at the position `i`.
pub open spec fn occurs_at(s: Seq<char>, pattern: Seq<char>, i: int) -> bool {
    0 <= i && i + pattern.len() <= s.len() && s.subrange(i, i + pattern.len()) == pattern
}

/// Whether `pattern` stands somewhere in `s`.
pub open spec fn contains_text(s: Seq<char>, pattern: Seq<char>) -> bool {
    exists|i: int| occurs_at(s, pattern, i)
}

/// Whether `pattern` stands in `text` at the position `i`.
pub fn matches_at(text: &Vec<char>, pattern: &Vec<char>, i: usize) -> (r: bool)
    requires
        i + pattern@.len() <= text@.len(),
    ensures
        r == occurs_at(text@, pattern@, i as int),
{
    let n = text.len();
    let mut k: usize = 0;
    while k < pattern.len()
        invariant
            k <= pattern@.len(),
            i + pattern@.len() <= text@.len() == n,
            forall|j: int| 0 <= j < k ==> text@[i + j] == pattern@[j],
        decreases pattern@.len() - k,
    {
        if text[i + k] != pattern[k] {
            assert(text@.subrange(i as int, i + pattern@.len())[k as int] != pattern@[k as int]);
            return false;
        }
        k += 1;
    }
    assert(text@.subrange(i as int, i + pattern@.len()) =~= pattern@);
    true
}

/// Whether `pattern` stands somewhere in `s`.
pub fn has_text(s: &str, pattern: &str) -> (r: bool)
    ensures
        r == contains_text(s@, pattern@),
{
    let text = to_chars(s);
    let wanted = to_chars(pattern);
    if wanted.len() > text.len() {
        return false;
    }
    let last = text.len() - wanted.len();
    let mut i: usize = 0;
    while i < last
        invariant
            i <= last,
            last + wanted@.len() == text@.len(),
            text@ == s@,
            wanted@ == pattern@,
            forall|j: int| 0 <= j < i ==> !occurs_at(s@, pattern@, j),
        decreases last - i,
    {
        if matches_at(&text, &wanted, i) {
            return true;
        }
        i += 1;
    }
    matches_at(&text, &wanted, last)
}

} // verus!
