use vstd::prelude::*;
use vstd::string::*;

verus! {

/// The views of a sequence of strings.
pub open spec fn string_views(v: Seq<String>) -> Seq<Seq<char>> {
    v.map_values(|x: String| x@)
}

/// The pieces of `s` between occurrences of `sep`, in order; there is always at
/// least one piece, and an empty `s` gives one empty piece.
pub open spec fn split_seq(s: Seq<char>, sep: char) -> Seq<Seq<char>>
    decreases s.len(),
{
    if s.len() == 0 {
        seq![Seq::empty()]
    } else {
        let prev = split_seq(s.drop_last(), sep);
        if s.last() == sep {
            prev.push(Seq::empty())
        } else {
            prev.update(prev.len() - 1, prev.last().push(s.last()))
        }
    }
}

pub proof fn lemma_split_seq_nonempty(s: Seq<char>, sep: char)
    ensures
        split_seq(s, sep).len() >= 1,
    decreases s.len(),
{
    if s.len() > 0 {
        lemma_split_seq_nonempty(s.drop_last(), sep);
    }
}

/// `i` is the first position of `c` in `s`.
pub open spec fn first_at(s: Seq<char>, c: char, i: int) -> bool {
    &&& 0 <= i < s.len()
    &&& s[i] == c
    &&& forall|j: int| 0 <= j < i ==> s[j] != c
}

/// `s` cut at the first occurrence of `c` into what stands before and after it,
/// or `None` where `c` does not occur.
pub open spec fn split_once_seq(s: Seq<char>, c: char) -> Option<(Seq<char>, Seq<char>)> {
    if s.contains(c) {
        let i = choose|i: int| first_at(s, c, i);
        Some((s.subrange(0, i), s.subrange(i + 1, s.len() as int)))
    } else {
        None
    }
}

/// Splits `s` on every occurrence of `sep`.
pub fn split_fields(s: &str, sep: char) -> (r: Vec<String>)
    ensures
        string_views(r@) == split_seq(s@, sep),
{
    let n = s.unicode_len();
    let mut pieces: Vec<String> = Vec::new();
    let mut start: usize = 0;
    let mut i: usize = 0;
    assert(s@.subrange(0, 0) =~= Seq::<char>::empty());
    assert(string_views(pieces@).push(s@.subrange(0, 0)) =~= seq![Seq::<char>::empty()]);
    while i < n
        invariant
            n == s@.len(),
            start <= i <= n,
            split_seq(s@.subrange(0, i as int), sep) == string_views(pieces@).push(
                s@.subrange(start as int, i as int),
            ),
        decreases n - i,
    {
        let c = s.get_char(i);
        assert(s@.subrange(0, i + 1).drop_last() =~= s@.subrange(0, i as int));
        let ghost prev = string_views(pieces@);
        if c == sep {
            let piece = String::from_str(s.substring_char(start, i));
            pieces.push(piece);
            assert(string_views(pieces@) =~= prev.push(piece@));
            start = i + 1;
            assert(s@.subrange(start as int, start as int) =~= Seq::<char>::empty());
        } else {
            assert(s@.subrange(start as int, i + 1) =~= s@.subrange(start as int, i as int).push(
                c,
            ));
            assert(prev.push(s@.subrange(start as int, i as int)).update(
                prev.len() as int,
                s@.subrange(start as int, i + 1),
            ) =~= prev.push(s@.subrange(start as int, i + 1)));
        }
        i = i + 1;
    }
    let ghost prev = string_views(pieces@);
    let last = String::from_str(s.substring_char(start, n));
    pieces.push(last);
    assert(string_views(pieces@) =~= prev.push(last@));
    assert(s@.subrange(0, n as int) =~= s@);
    pieces
}

/// Cuts `s` at the first occurrence of `c`.
pub fn split_once_at(s: &str, c: char) -> (r: Option<(String, String)>)
    ensures
        match r {
            Some((a, b)) => split_once_seq(s@, c) == Some((a@, b@)),
            None => split_once_seq(s@, c) is None,
        },
{
    let n = s.unicode_len();
    let mut i: usize = 0;
    while i < n
        invariant
            n == s@.len(),
            i <= n,
            forall|j: int| 0 <= j < i ==> s@[j] != c,
        decreases n - i,
    {
        if s.get_char(i) == c {
            assert(first_at(s@, c, i as int));
            assert(s@.contains(c));
            proof {
                let k = choose|k: int| first_at(s@, c, k);
                assert(k == i) by {
                    if k < i {
                    } else if k > i {
                    }
                }
            }
            let before = String::from_str(s.substring_char(0, i));
            let after = String::from_str(s.substring_char(i + 1, n));
            return Some((before, after));
        }
        i = i + 1;
    }
    None
}

/// Whether `a` and `b` hold the same characters.
pub fn same_text(a: &str, b: &str) -> (r: bool)
    ensures
        r == (a@ == b@),
{
    let n = a.unicode_len();
    if n != b.unicode_len() {
        return false;
    }
    let mut i: usize = 0;
    while i < n
        invariant
            n == a@.len(),
            n == b@.len(),
            i <= n,
            forall|j: int| 0 <= j < i ==> a@[j] == b@[j],
        decreases n - i,
    {
        if a.get_char(i) != b.get_char(i) {
            return false;
        }
        i = i + 1;
    }
    assert(a@ =~= b@);
    true
}

/// A character of Unicode's White_Space property.
pub open spec fn is_white_space(c: char) -> bool {
    let u = c as u32;
    (0x09 <= u && u <= 0x0d) || u == 0x20 || u == 0x85 || u == 0xa0 || u == 0x1680 || (0x2000
        <= u && u <= 0x200a) || u == 0x2028 || u == 0x2029 || u == 0x202f || u == 0x205f || u
        == 0x3000
}

/// A character that a header value carries as syntax only: an angle bracket, a
/// double quote or white space.
pub open spec fn is_noise(c: char) -> bool {
    c == '<' || c == '>' || c == '"' || is_white_space(c)
}

/// `s` without its noise characters.
pub open spec fn strip_noise(s: Seq<char>) -> Seq<char> {
    s.filter(|c: char| !is_noise(c))
}

/// A regular expression that matches exactly one noise character.
pub const NOISE_PATTERN: &'static str = "[<>\"\\s]";

/// The text of `NOISE_PATTERN`.
pub open spec fn noise_pattern() -> Seq<char> {
    seq!['[', '<', '>', '"', '\\', 's', ']']
}

/// Relies on regex::Regex::new to compile `pattern`, a valid character class
/// that it accepts, and on Regex::replace_all with an empty replacement to
/// remove every match of it from `s`. In that pattern, `\s` is the Unicode
/// White_Space class.
#[verifier::external_body]
fn remove_matches(pattern: &str, s: &str) -> (r: Option<String>)
    requires
        pattern@ == noise_pattern(),
    ensures
        r is Some,
        r matches Some(t) ==> t@ == strip_noise(s@),
{
    match regex::Regex::new(pattern) {
        Ok(re) => Some(re.replace_all(s, "").into_owned()),
        Err(_) => None,
    }
}

/// Removes angle brackets, double quotes and white space from `s`.
pub fn remove_noise(s: &str) -> (r: String)
    ensures
        r@ == strip_noise(s@),
{
    proof {
        reveal_strlit("[<>\"\\s]");
    }
    assert(NOISE_PATTERN@ =~= noise_pattern());
    remove_matches(NOISE_PATTERN, s).unwrap()
}

} // verus!
