//! Operations on text, stated over the sequence of its characters.
use vstd::prelude::*;
use vstd::string::*;

verus! {

/// A set of characters that trimming removes.
#[derive(Clone, Copy, Debug, PartialEq, Eq, Structural)]
pub enum CharClass {
    /// The path separator `/`.
    Slash,
    /// The characters with the Unicode property `White_Space`.
    Whitespace,
}

/// The characters with the Unicode property `White_Space`.
pub open spec fn is_white_space(c: char) -> bool {
    let u = c as u32;
    ||| 0x9 <= u <= 0xd
    ||| u == 0x20
    ||| u == 0x85
    ||| u == 0xa0
    ||| u == 0x1680
    ||| 0x2000 <= u <= 0x200a
    ||| u == 0x2028
    ||| u == 0x2029
    ||| u == 0x202f
    ||| u == 0x205f
    ||| u == 0x3000
}

impl CharClass {
    /// Membership in the class.
    pub open spec fn has(self, c: char) -> bool {
        match self {
            CharClass::Slash => c == '/',
            CharClass::Whitespace => is_white_space(c),
        }
    }

    /// Tells whether `c` belongs to the class.
    pub fn contains(self, c: char) -> (r: bool)
        ensures
            r == self.has(c),
    {
        match self {
            CharClass::Slash => c == '/',
            CharClass::Whitespace => {
                let u: u32 = c as u32;
                (0x9 <= u && u <= 0xd) || u == 0x20 || u == 0x85 || u == 0xa0 || u == 0x1680 || (
                0x2000 <= u && u <= 0x200a) || u == 0x2028 || u == 0x2029 || u == 0x202f || u
                    == 0x205f || u == 0x3000
            },
        }
    }
}

/// `s` without the characters of `class` that it starts with.
pub open spec fn without_leading(s: Seq<char>, class: CharClass) -> Seq<char>
    decreases s.len(),
{
    if s.len() > 0 && class.has(s.first()) {
        without_leading(s.drop_first(), class)
    } else {
        s
    }
}

/// `s` without the characters of `class` that it ends with.
pub open spec fn without_trailing(s: Seq<char>, class: CharClass) -> Seq<char>
    decreases s.len(),
{
    if s.len() > 0 && class.has(s.last()) {
        without_trailing(s.drop_last(), class)
    } else {
        s
    }
}

/// `s` without the characters of `class` at either end.
pub open spec fn stripped(s: Seq<char>, class: CharClass) -> Seq<char> {
    without_trailing(without_leading(s, class), class)
}

/// The parts of `s` between the occurrences of `sep`: always at least one.
pub open spec fn split(s: Seq<char>, sep: char) -> Seq<Seq<char>>
    decreases s.len(),
{
    if s.len() == 0 {
        seq![Seq::<char>::empty()]
    } else {
        let parts = split(s.drop_last(), sep);
        if s.last() == sep {
            parts.push(Seq::<char>::empty())
        } else {
            parts.drop_last().push(parts.last().push(s.last()))
        }
    }
}

/// The character sequences that a sequence of strings holds.
pub open spec fn views(texts: Seq<String>) -> Seq<Seq<char>> {
    texts.map_values(|t: String| t@)
}

/// What is left after trimming at the front starts with no character of the class, and nothing
/// but the front is lost.
pub proof fn lemma_without_leading(s: Seq<char>, class: CharClass)
    ensures
        without_leading(s, class).len() <= s.len(),
        without_leading(s, class) == s.skip(s.len() - without_leading(s, class).len()),
        without_leading(s, class).len() > 0 ==> !class.has(without_leading(s, class).first()),
    decreases s.len(),
{
    if s.len() > 0 && class.has(s.first()) {
        lemma_without_leading(s.drop_first(), class);
        let r = without_leading(s, class);
        assert(s.drop_first().skip(s.len() - 1 - r.len()) =~= s.skip(s.len() - r.len()));
    } else {
        assert(s.skip(0) =~= s);
    }
}

/// What is left after trimming at the end ends with no character of the class, and nothing but
/// the end is lost.
pub proof fn lemma_without_trailing(s: Seq<char>, class: CharClass)
    ensures
        without_trailing(s, class).len() <= s.len(),
        without_trailing(s, class) == s.take(without_trailing(s, class).len() as int),
        without_trailing(s, class).len() > 0 ==> !class.has(without_trailing(s, class).last()),
    decreases s.len(),
{
    if s.len() > 0 && class.has(s.last()) {
        lemma_without_trailing(s.drop_last(), class);
        let r = without_trailing(s, class);
        assert(s.drop_last().take(r.len() as int) =~= s.take(r.len() as int));
    } else {
        assert(s.take(s.len() as int) =~= s);
    }
}

/// What is left after trimming at both ends has no character of the class at either end.
pub proof fn lemma_stripped(s: Seq<char>, class: CharClass)
    ensures
        stripped(s, class).len() > 0 ==> !class.has(stripped(s, class).first()) && !class.has(
            stripped(s, class).last(),
        ),
{
    lemma_without_leading(s, class);
    lemma_without_trailing(without_leading(s, class), class);
}

/// The first part of a text that starts with `part` and, unless it ends there, goes on with the
/// separator.
pub proof fn lemma_split_first(part: Seq<char>, rest: Seq<char>, sep: char)
    requires
        !part.contains(sep),
        rest.len() > 0 ==> rest.first() == sep,
    ensures
        split(part + rest, sep).len() >= 1,
        split(part + rest, sep)[0] == part,
        rest.len() > 0 ==> split(part + rest, sep).len() >= 2,
    decreases rest.len(),
{
    let s = part + rest;
    if rest.len() == 0 {
        assert(s =~= part);
        lemma_split_single(part, sep);
    } else {
        let shorter = rest.drop_last();
        if shorter.len() > 0 {
            assert(shorter.first() == rest.first());
        }
        lemma_split_first(part, shorter, sep);
        assert(s.drop_last() =~= part + shorter);
        assert(s.last() == rest.last());
    }
}

/// The first part of a text has no separator in it, and the text ends with it or goes on with
/// the separator.
pub proof fn lemma_first_part(s: Seq<char>, sep: char)
    ensures
        split(s, sep).len() >= 1,
        !split(s, sep)[0].contains(sep),
        split(s, sep)[0].is_prefix_of(s),
        split(s, sep)[0] == s || s[split(s, sep)[0].len() as int] == sep,
        split(s, sep)[0] == s <==> split(s, sep).len() == 1,
    decreases s.len(),
{
    let first = split(s, sep)[0];
    if s.len() == 0 {
        assert(first =~= s);
        assert(s =~= s.subrange(0, 0));
    } else {
        let shorter = s.drop_last();
        lemma_first_part(shorter, sep);
        let before = split(shorter, sep);
        assert(shorter.push(s.last()) =~= s);
        if s.last() == sep {
            assert(first == before[0]);
            assert(first =~= s.subrange(0, first.len() as int));
            assert(first.len() < s.len());
        } else if before.len() == 1 {
            assert(first =~= before[0].push(s.last()));
            assert(before[0] == shorter);
            assert(first == s);
            assert(s =~= s.subrange(0, s.len() as int));
            assert forall|i: int| 0 <= i < s.len() implies s[i] != sep by {
                if i < s.len() - 1 {
                    assert(shorter[i] == s[i]);
                    assert(!shorter.contains(sep));
                }
            }
        } else {
            assert(first == before[0]);
            assert(first =~= s.subrange(0, first.len() as int));
            assert(first.len() < s.len());
        }
    }
}

/// A text without the separator is one part.
pub proof fn lemma_split_single(s: Seq<char>, sep: char)
    requires
        !s.contains(sep),
    ensures
        split(s, sep) == seq![s],
    decreases s.len(),
{
    if s.len() == 0 {
        assert(s =~= Seq::<char>::empty());
    } else {
        assert forall|c: char| s.drop_last().contains(c) implies s.contains(c) by {
            let i = s.drop_last().index_of(c);
            assert(s[i] == c);
        }
        lemma_split_single(s.drop_last(), sep);
        assert(s[s.len() - 1] == s.last());
        assert(s.drop_last().push(s.last()) =~= s);
        assert(split(s, sep) =~= seq![s]);
    }
}

/// Two texts without the separator, joined by it, are its two parts.
pub proof fn lemma_split_pair(a: Seq<char>, b: Seq<char>, sep: char)
    requires
        !a.contains(sep),
        !b.contains(sep),
    ensures
        split(a.push(sep) + b, sep) == seq![a, b],
    decreases b.len(),
{
    let s = a.push(sep) + b;
    if b.len() == 0 {
        assert(b =~= Seq::<char>::empty());
        assert(s.drop_last() =~= a);
        lemma_split_single(a, sep);
        assert(split(s, sep) =~= seq![a, b]);
    } else {
        assert forall|c: char| b.drop_last().contains(c) implies b.contains(c) by {
            let i = b.drop_last().index_of(c);
            assert(b[i] == c);
        }
        lemma_split_pair(a, b.drop_last(), sep);
        assert(s.drop_last() =~= a.push(sep) + b.drop_last());
        assert(b[b.len() - 1] == b.last());
        assert(b.drop_last().push(b.last()) =~= b);
        assert(split(s, sep) =~= seq![a, b]);
    }
}

/// The characters of `s`, in order.
pub fn chars_of(s: &str) -> (r: Vec<char>)
    ensures
        r@ == s@,
{
    let mut r: Vec<char> = Vec::new();
    for c in it: s.chars()
        invariant
            r@ == it.seq().take(it.index() as int),
            it.seq() == s@,
    {
        r.push(c);
    }
    r
}

/// `s` without the characters of `class` that it starts with.
pub fn trim_start(s: &str, class: CharClass) -> (r: String)
    ensures
        r@ == without_leading(s@, class),
{
    let chars = chars_of(s);
    let n: usize = chars.len();
    let mut i: usize = 0;
    proof {
        assert(s@.skip(0) =~= s@);
    }
    while i < n && class.contains(chars[i])
        invariant
            i <= n,
            n == chars.len(),
            chars@ == s@,
            without_leading(s@, class) == without_leading(s@.skip(i as int), class),
        decreases n - i,
    {
        proof {
            assert(s@.skip(i as int).drop_first() =~= s@.skip(i + 1));
        }
        i = i + 1;
    }
    proof {
        assert(s@.skip(i as int) =~= s@.subrange(i as int, n as int));
    }
    s.substring_char(i, n).to_owned()
}

/// `s` without the characters of `class` that it ends with.
pub fn trim_end(s: &str, class: CharClass) -> (r: String)
    ensures
        r@ == without_trailing(s@, class),
{
    let chars = chars_of(s);
    let mut n: usize = chars.len();
    proof {
        assert(s@.take(n as int) =~= s@);
    }
    while n > 0 && class.contains(chars[n - 1])
        invariant
            n <= chars.len(),
            chars@ == s@,
            without_trailing(s@, class) == without_trailing(s@.take(n as int), class),
        decreases n,
    {
        proof {
            assert(s@.take(n as int).drop_last() =~= s@.take(n - 1));
        }
        n = n - 1;
    }
    proof {
        assert(s@.take(n as int) =~= s@.subrange(0, n as int));
    }
    s.substring_char(0, n).to_owned()
}

/// `s` without the characters of `class` at either end.
pub fn trim(s: &str, class: CharClass) -> (r: String)
    ensures
        r@ == stripped(s@, class),
{
    let start = trim_start(s, class);
    trim_end(start.as_str(), class)
}

/// The parts of `s` between the occurrences of `sep`.
pub fn split_text(s: &str, sep: char) -> (r: Vec<String>)
    ensures
        views(r@) == split(s@, sep),
        r@.len() >= 1,
{
    let chars = chars_of(s);
    let n: usize = chars.len();
    let mut parts: Vec<String> = Vec::new();
    let mut start: usize = 0;
    let mut i: usize = 0;
    proof {
        assert(s@.take(0) =~= Seq::<char>::empty());
        assert(views(parts@).push(s@.subrange(0, 0)) =~= split(s@.take(0), sep));
    }
    while i < n
        invariant
            start <= i <= n,
            n == chars.len(),
            chars@ == s@,
            views(parts@).push(s@.subrange(start as int, i as int)) == split(
                s@.take(i as int),
                sep,
            ),
        decreases n - i,
    {
        let ghost before = split(s@.take(i as int), sep);
        proof {
            assert(s@.take(i + 1).drop_last() =~= s@.take(i as int));
            assert(before.drop_last() =~= views(parts@));
        }
        if chars[i] == sep {
            let ghost old_parts = parts@;
            let part = s.substring_char(start, i).to_owned();
            parts.push(part);
            start = i + 1;
            proof {
                assert(views(parts@) =~= views(old_parts).push(part@));
                assert(s@.subrange(i + 1, i + 1) =~= Seq::<char>::empty());
            }
        } else {
            proof {
                assert(s@.subrange(start as int, i + 1) =~= s@.subrange(
                    start as int,
                    i as int,
                ).push(s@[i as int]));
            }
        }
        i = i + 1;
    }
    let last = s.substring_char(start, n).to_owned();
    let ghost old_parts = parts@;
    parts.push(last);
    proof {
        assert(views(parts@) =~= views(old_parts).push(last@));
        assert(s@.take(n as int) =~= s@);
    }
    parts
}

/// Tells whether `s` starts with `prefix`.
pub fn starts_with(s: &str, prefix: &str) -> (r: bool)
    ensures
        r == prefix@.is_prefix_of(s@),
{
    let x = chars_of(s);
    let y = chars_of(prefix);
    if y.len() > x.len() {
        return false;
    }
    let mut i: usize = 0;
    while i < y.len()
        invariant
            i <= y.len() <= x.len(),
            x@ == s@,
            y@ == prefix@,
            forall|j: int| 0 <= j < i ==> x@[j] == y@[j],
        decreases y.len() - i,
    {
        if x[i] != y[i] {
            proof {
                assert(s@.subrange(0, y@.len() as int)[i as int] == x@[i as int]);
            }
            return false;
        }
        i = i + 1;
    }
    proof {
        assert(prefix@ =~= s@.subrange(0, y@.len() as int));
    }
    true
}

/// `s` from its character `from` on.
pub fn skip(s: &str, from: usize) -> (r: String)
    requires
        from <= s@.len(),
    ensures
        r@ == s@.skip(from as int),
{
    let n: usize = s.unicode_len();
    proof {
        assert(s@.skip(from as int) =~= s@.subrange(from as int, n as int));
    }
    s.substring_char(from, n).to_owned()
}

/// Tells whether the last character of `s` is `c`.
pub fn ends_with(s: &str, c: char) -> (r: bool)
    ensures
        r == (s@.len() > 0 && s@.last() == c),
{
    let n: usize = s.unicode_len();
    n > 0 && s.get_char(n - 1) == c
}

/// Trimming at the front takes off the characters of the class that stand there and keeps the
/// rest.
pub proof fn law_trims_the_front(front: Seq<char>, rest: Seq<char>, class: CharClass)
    requires
        forall|i: int| 0 <= i < front.len() ==> class.has(#[trigger] front[i]),
        rest.len() > 0 ==> !class.has(rest[0]),
    ensures
        without_leading(front + rest, class) == rest,
    decreases front.len(),
{
    let s = front + rest;
    if front.len() == 0 {
        assert(s =~= rest);
    } else {
        assert(s.drop_first() =~= front.drop_first() + rest);
        assert forall|i: int| 0 <= i < front.drop_first().len() implies class.has(
            #[trigger] front.drop_first()[i],
        ) by {
            assert(front.drop_first()[i] == front[i + 1]);
        }
        assert(s.first() == front[0]);
        law_trims_the_front(front.drop_first(), rest, class);
    }
}

/// Trimming at the end takes off the characters of the class that stand there and keeps the rest.
pub proof fn law_trims_the_end(rest: Seq<char>, back: Seq<char>, class: CharClass)
    requires
        forall|i: int| 0 <= i < back.len() ==> class.has(#[trigger] back[i]),
        rest.len() > 0 ==> !class.has(rest[rest.len() - 1]),
    ensures
        without_trailing(rest + back, class) == rest,
    decreases back.len(),
{
    let s = rest + back;
    if back.len() == 0 {
        assert(s =~= rest);
    } else {
        assert(s.drop_last() =~= rest + back.drop_last());
        assert forall|i: int| 0 <= i < back.drop_last().len() implies class.has(
            #[trigger] back.drop_last()[i],
        ) by {
            assert(back.drop_last()[i] == back[i]);
        }
        assert(s.last() == back[back.len() - 1]);
        law_trims_the_end(rest, back.drop_last(), class);
    }
}

/// Trimming takes off the characters of the class at both ends and keeps what is between them.
pub proof fn law_trims_both_ends(
    front: Seq<char>,
    core: Seq<char>,
    back: Seq<char>,
    class: CharClass,
)
    requires
        forall|i: int| 0 <= i < front.len() ==> class.has(#[trigger] front[i]),
        forall|i: int| 0 <= i < back.len() ==> class.has(#[trigger] back[i]),
        core.len() > 0 ==> !class.has(core[0]) && !class.has(core[core.len() - 1]),
    ensures
        stripped(front + core + back, class) == core,
{
    if core.len() == 0 {
        let all = front + core + back;
        assert forall|i: int| 0 <= i < all.len() implies class.has(#[trigger] all[i]) by {
            if i < front.len() {
                assert(all[i] == front[i]);
            } else {
                assert(all[i] == back[i - front.len()]);
            }
        }
        assert(all + Seq::<char>::empty() =~= all);
        law_trims_the_front(all, Seq::empty(), class);
        assert(core =~= Seq::empty());
    } else {
        assert(front + core + back =~= front + (core + back));
        law_trims_the_front(front, core + back, class);
        law_trims_the_end(core, back, class);
    }
}

/// The slash is the one path separator, and no space.
pub proof fn law_slash_is_alone(c: char)
    ensures
        CharClass::Slash.has(c) <==> c == '/',
        CharClass::Whitespace.has(' '),
        CharClass::Whitespace.has('\t'),
        CharClass::Whitespace.has('\n'),
        '!' <= c <= '~' ==> !CharClass::Whitespace.has(c),
{
}

/// Splitting takes one part after the other: what stands before the first separator is the first
/// part, and the parts of what stands behind it follow. A text without one is a single part.
pub proof fn law_splits_at_each_separator(part: Seq<char>, rest: Seq<char>, sep: char)
    requires
        !part.contains(sep),
    ensures
        split(part, sep) == seq![part],
        split(part.push(sep) + rest, sep) == seq![part] + split(rest, sep),
    decreases rest.len(),
{
    lemma_split_single(part, sep);
    let s = part.push(sep) + rest;
    lemma_first_part(rest, sep);
    if rest.len() == 0 {
        assert(s.drop_last() =~= part);
        assert(split(s, sep) =~= seq![part] + split(rest, sep));
    } else {
        law_splits_at_each_separator(part, rest.drop_last(), sep);
        lemma_first_part(rest.drop_last(), sep);
        assert(s.drop_last() =~= part.push(sep) + rest.drop_last());
        assert(s.last() == rest.last());
        assert(split(s, sep) =~= seq![part] + split(rest, sep));
    }
}

} // verus!
