//! Rules on entry names: hidden names, extensions, the markdown filter and
//! the case-insensitive order of names.

use vstd::prelude::*;

verus! {

/// A name is hidden when it starts with a dot.
pub open spec fn is_hidden_name(name: Seq<char>) -> bool {
    name.len() > 0 && name[0] == '.'
}

/// Tells whether `name` starts with the hidden marker.
pub fn is_hidden(name: &str) -> (hidden: bool)
    ensures
        hidden == is_hidden_name(name@),
{
    if name.is_empty() {
        false
    } else {
        name.get_char(0) == '.'
    }
}

/// The characters of `text`, one element for each.
pub fn chars_of(text: &str) -> (chars: Vec<char>)
    ensures
        chars@ == text@,
{
    let mut chars: Vec<char> = Vec::new();
    for c in it: text.chars()
        invariant
            chars@ == it.seq().take(it.index()),
            it.seq() == text@,
    {
        chars.push(c);
    }
    chars
}

/// The position of the last dot in `name`, or -1 where it holds none.
pub open spec fn last_dot_of(name: Seq<char>) -> int
    decreases name.len(),
{
    if name.len() == 0 {
        -1
    } else if name.last() == '.' {
        name.len() - 1
    } else {
        last_dot_of(name.drop_last())
    }
}

/// The extension of a file name: what follows its last dot. A name without
/// a dot, a name whose only dot comes first, and the name `..` have none.
pub open spec fn extension_of(name: Seq<char>) -> Option<Seq<char>> {
    let dot = last_dot_of(name);
    if dot <= 0 || name == seq!['.', '.'] {
        None
    } else {
        Some(name.subrange(dot + 1, name.len() as int))
    }
}

/// `last_dot_of` is the one position that holds a dot with no dot after it.
pub proof fn lemma_last_dot(name: Seq<char>, at: int)
    requires
        -1 <= at < name.len(),
        at >= 0 ==> name[at] == '.',
        forall|j: int| at < j < name.len() ==> name[j] != '.',
    ensures
        last_dot_of(name) == at,
    decreases name.len(),
{
    if name.len() > 0 && at < name.len() - 1 {
        lemma_last_dot(name.drop_last(), at);
    }
}

/// The extension of `name`, as `extension_of` defines it.
pub fn extension(name: &str) -> (ext: Option<String>)
    ensures
        match extension_of(name@) {
            Some(expected) => ext matches Some(e) && e@ == expected,
            None => ext is None,
        },
{
    let chars = chars_of(name);
    let n: usize = chars.len();
    let mut i: usize = n;
    while i > 0 && chars[i - 1] != '.'
        invariant
            i <= n,
            n == chars.len(),
            forall|j: int| i <= j < n ==> chars[j] != '.',
        decreases i,
    {
        i = i - 1;
    }
    proof {
        lemma_last_dot(name@, i - 1);
    }
    if i <= 1 || (n == 2 && chars[0] == '.') {
        assert(n == 2 && chars[0] == '.' && i == 2 ==> name@ =~= seq!['.', '.']);
        None
    } else {
        assert(name@ != seq!['.', '.']) by {
            if name@ == seq!['.', '.'] {
                assert(name@.len() == 2);
                assert(name@[0] == '.');
            }
        }
        Some(String::from_str(name.substring_char(i, n)))
    }
}

/// The lowercase form of a text under the Unicode case mapping.
pub uninterp spec fn lowercase_of(text: Seq<char>) -> Seq<char>;

/// Calls `str::to_lowercase` of std. Trusted: the call returns the lowercase
/// form that Unicode defines for the text, a function of the text alone, which
/// this crate names `lowercase_of` and does not spell out.
#[verifier::external_body]
pub(crate) fn to_lowercase(text: &str) -> (lowered: String)
    ensures
        lowered@ == lowercase_of(text@),
{
    text.to_lowercase()
}

/// The two extensions of markdown documents, in lowercase.
pub open spec fn is_markdown_extension(lowered: Seq<char>) -> bool {
    lowered == seq!['m', 'd'] || lowered == seq!['m', 'd', 'x']
}

/// A name passes the markdown filter when it has an extension whose
/// lowercase form is `md` or `mdx`.
pub open spec fn is_markdown_name(name: Seq<char>) -> bool {
    extension_of(name) matches Some(ext) && is_markdown_extension(lowercase_of(ext))
}

/// Tests an extension that is already in lowercase against `md` and `mdx`.
pub fn has_markdown_extension(lowered: &str) -> (markdown: bool)
    ensures
        markdown == is_markdown_extension(lowered@),
{
    let chars = chars_of(lowered);
    let n: usize = chars.len();
    if n == 2 {
        assert(chars@ =~= seq![chars[0], chars[1]]);
        chars[0] == 'm' && chars[1] == 'd'
    } else if n == 3 {
        assert(chars@ =~= seq![chars[0], chars[1], chars[2]]);
        chars[0] == 'm' && chars[1] == 'd' && chars[2] == 'x'
    } else {
        false
    }
}

/// The markdown filter on a file name.
pub fn is_markdown(name: &str) -> (markdown: bool)
    ensures
        markdown == is_markdown_name(name@),
{
    match extension(name) {
        Some(ext) => {
            let lowered = to_lowercase(ext.as_str());
            has_markdown_extension(lowered.as_str())
        },
        None => false,
    }
}

/// Lexicographic order of two texts by the code points of their characters:
/// `a` comes no later than `b`.
pub open spec fn text_le(a: Seq<char>, b: Seq<char>) -> bool
    decreases a.len(),
{
    if a.len() == 0 {
        true
    } else if b.len() == 0 {
        false
    } else if a[0] != b[0] {
        (a[0] as int) < (b[0] as int)
    } else {
        text_le(a.drop_first(), b.drop_first())
    }
}

/// Every text comes no later than itself.
pub proof fn lemma_text_le_reflexive(a: Seq<char>)
    ensures
        text_le(a, a),
    decreases a.len(),
{
    if a.len() > 0 {
        lemma_text_le_reflexive(a.drop_first());
    }
}

/// Of two texts one comes no later than the other.
pub proof fn lemma_text_le_total(a: Seq<char>, b: Seq<char>)
    ensures
        text_le(a, b) || text_le(b, a),
    decreases a.len(),
{
    if a.len() > 0 && b.len() > 0 {
        if a[0] == b[0] {
            lemma_text_le_total(a.drop_first(), b.drop_first());
        }
    }
}

/// The order of texts is transitive.
pub proof fn lemma_text_le_transitive(a: Seq<char>, b: Seq<char>, c: Seq<char>)
    requires
        text_le(a, b),
        text_le(b, c),
    ensures
        text_le(a, c),
    decreases a.len(),
{
    if a.len() > 0 && b.len() > 0 && c.len() > 0 && a[0] == b[0] && b[0] == c[0] {
        lemma_text_le_transitive(a.drop_first(), b.drop_first(), c.drop_first());
    }
}

/// Compares two texts as `text_le` orders them.
pub fn text_precedes(a: &str, b: &str) -> (le: bool)
    ensures
        le == text_le(a@, b@),
{
    let x = chars_of(a);
    let y = chars_of(b);
    let mut i: usize = 0;
    assert(x@.skip(0) =~= x@ && y@.skip(0) =~= y@);
    while i < x.len() && i < y.len() && x[i] == y[i]
        invariant
            i <= x.len(),
            i <= y.len(),
            text_le(x@, y@) == text_le(x@.skip(i as int), y@.skip(i as int)),
        decreases x.len() - i,
    {
        proof {
            let xs = x@.skip(i as int);
            let ys = y@.skip(i as int);
            assert(xs.drop_first() =~= x@.skip(i + 1));
            assert(ys.drop_first() =~= y@.skip(i + 1));
        }
        i = i + 1;
    }
    proof {
        let xs = x@.skip(i as int);
        let ys = y@.skip(i as int);
        assert(xs.len() == x.len() - i && ys.len() == y.len() - i);
        assert(i < x.len() ==> xs[0] == x[i as int]);
        assert(i < y.len() ==> ys[0] == y[i as int]);
    }
    if i == x.len() {
        true
    } else if i == y.len() {
        false
    } else {
        x[i] < y[i]
    }
}

} // verus!
