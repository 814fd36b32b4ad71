use vstd::prelude::*;
use vstd::string::*;

verus! {

broadcast use vstd::string::group_string_axioms;

/// Unicode `White_Space`: the characters that `trim` and `trim_end` remove.
pub open spec fn is_white_space(c: char) -> bool {
    let n = c as u32;
    ||| 0x09 <= n <= 0x0d
    ||| n == 0x20
    ||| n == 0x85
    ||| n == 0xa0
    ||| n == 0x1680
    ||| 0x2000 <= n <= 0x200a
    ||| n == 0x2028
    ||| n == 0x2029
    ||| n == 0x202f
    ||| n == 0x205f
    ||| n == 0x3000
}

/// Whether `c` has the Unicode `White_Space` property.
pub fn is_whitespace(c: char) -> (r: bool)
    ensures
        r == is_white_space(c),
{
    let n: u32 = c as u32;
    (0x09 <= n && n <= 0x0d) || n == 0x20 || n == 0x85 || n == 0xa0 || n == 0x1680 || (0x2000
        <= n && n <= 0x200a) || n == 0x2028 || n == 0x2029 || n == 0x202f || n == 0x205f || n
        == 0x3000
}

/// The length of `s` once its trailing white space is removed.
pub open spec fn trimmed_end_len(s: Seq<char>) -> nat
    decreases s.len(),
{
    if s.len() == 0 {
        0
    } else if is_white_space(s.last()) {
        trimmed_end_len(s.drop_last())
    } else {
        s.len()
    }
}

/// The number of leading white-space characters of `s`.
pub open spec fn leading_white_space_len(s: Seq<char>) -> nat
    decreases s.len(),
{
    if s.len() == 0 {
        0
    } else if is_white_space(s[0]) {
        1 + leading_white_space_len(s.drop_first())
    } else {
        0
    }
}

/// `s` without its trailing white space.
pub open spec fn trim_end_spec(s: Seq<char>) -> Seq<char> {
    s.take(trimmed_end_len(s) as int)
}

/// `s` without its leading white space.
pub open spec fn trim_start_spec(s: Seq<char>) -> Seq<char> {
    s.skip(leading_white_space_len(s) as int)
}

/// `s` without its leading and trailing white space.
pub open spec fn trim_spec(s: Seq<char>) -> Seq<char> {
    trim_start_spec(trim_end_spec(s))
}


/// The trimmed length is at most the length, everything after it is white
/// space, and the character just before it is not.
pub proof fn lemma_trimmed_end_len(s: Seq<char>)
    ensures
        trimmed_end_len(s) <= s.len(),
        forall|i: int| trimmed_end_len(s) <= i < s.len() ==> is_white_space(#[trigger] s[i]),
        trimmed_end_len(s) > 0 ==> !is_white_space(s[trimmed_end_len(s) - 1]),
    decreases s.len(),
{
    if s.len() > 0 && is_white_space(s.last()) {
        lemma_trimmed_end_len(s.drop_last());
        assert forall|i: int| trimmed_end_len(s) <= i < s.len() implies is_white_space(#[trigger] s[i]) by {
            if i < s.len() - 1 {
                assert(s[i] == s.drop_last()[i]);
            }
        }
    }
}

/// The leading white space is at most the whole, it is all white space, and
/// the character after it is not.
pub proof fn lemma_leading_white_space_len(s: Seq<char>)
    ensures
        leading_white_space_len(s) <= s.len(),
        forall|i: int| 0 <= i < leading_white_space_len(s) ==> is_white_space(#[trigger] s[i]),
        leading_white_space_len(s) < s.len() ==> !is_white_space(s[leading_white_space_len(s) as int]),
    decreases s.len(),
{
    if s.len() > 0 && is_white_space(s[0]) {
        lemma_leading_white_space_len(s.drop_first());
        assert forall|i: int| 0 <= i < leading_white_space_len(s) implies is_white_space(#[trigger] s[i]) by {
            if i > 0 {
                assert(s[i] == s.drop_first()[i - 1]);
            }
        }
    }
}

/// Trimming the end twice changes nothing more.
pub proof fn lemma_trim_end_idempotent(s: Seq<char>)
    ensures
        trim_end_spec(trim_end_spec(s)) == trim_end_spec(s),
        trimmed_end_len(trim_end_spec(s)) == trimmed_end_len(s),
{
    lemma_trimmed_end_len(s);
    let t = trim_end_spec(s);
    if t.len() > 0 {
        assert(t.last() == s[trimmed_end_len(s) - 1]);
    }
    assert(t.take(t.len() as int) == t);
}

/// The characters of `s`, in order.
pub fn chars_of(s: &str) -> (r: Vec<char>)
    ensures
        r@ == s@,
{
    let mut r: Vec<char> = Vec::new();
    for c in it: s.chars()
        invariant
            it.seq() == s@,
            r@ == it.seq().take(it.index()),
    {
        r.push(c);
    }
    r
}

fn trimmed_end_len_exec(cs: &Vec<char>) -> (r: usize)
    ensures
        r == trimmed_end_len(cs@),
{
    let mut k: usize = cs.len();
    assert(cs@.take(k as int) == cs@);
    while k > 0 && is_whitespace(cs[k - 1])
        invariant
            k <= cs.len(),
            trimmed_end_len(cs@.take(k as int)) == trimmed_end_len(cs@),
        decreases k,
    {
        assert(cs@.take(k as int).drop_last() == cs@.take(k - 1));
        k = k - 1;
    }
    if k > 0 {
        assert(cs@.take(k as int).last() == cs@[k - 1]);
    }
    assert(cs@.take(cs.len() as int) == cs@);
    k
}

fn leading_white_space_len_exec(cs: &Vec<char>) -> (r: usize)
    ensures
        r == leading_white_space_len(cs@),
{
    let mut k: usize = 0;
    assert(cs@.skip(0) == cs@);
    while k < cs.len() && is_whitespace(cs[k])
        invariant
            k <= cs.len(),
            k + leading_white_space_len(cs@.skip(k as int)) == leading_white_space_len(cs@),
        decreases cs.len() - k,
    {
        assert(cs@.skip(k as int).drop_first() == cs@.skip(k + 1));
        k = k + 1;
    }
    if k < cs.len() {
        assert(cs@.skip(k as int)[0] == cs@[k as int]);
    }
    k
}

/// `s` without trailing white space (`str::trim_end`).
pub fn trim_end(s: &str) -> (r: String)
    ensures
        r@ == trim_end_spec(s@),
{
    let cs = chars_of(s);
    let k = trimmed_end_len_exec(&cs);
    proof {
        lemma_trimmed_end_len(s@);
    }
    s.substring_char(0, k).to_owned()
}

/// `s` without leading and trailing white space (`str::trim`).
pub fn trim(s: &str) -> (r: String)
    ensures
        r@ == trim_spec(s@),
{
    let cs = chars_of(s);
    let k = trimmed_end_len_exec(&cs);
    proof {
        lemma_trimmed_end_len(s@);
    }
    let end = s.substring_char(0, k);
    let cs2 = chars_of(end);
    let j = leading_white_space_len_exec(&cs2);
    proof {
        lemma_leading_white_space_len(end@);
    }
    end.substring_char(j, k).to_owned()
}

/// Whether `m` occurs in `s` at index `i`.
pub open spec fn occurs_at(s: Seq<char>, m: Seq<char>, i: int) -> bool {
    0 <= i && i + m.len() <= s.len() && s.subrange(i, i + m.len()) == m
}

/// Whether `i` is the first index at which `m` occurs in `s`.
pub open spec fn first_occurrence(s: Seq<char>, m: Seq<char>, i: int) -> bool {
    occurs_at(s, m, i) && forall|j: int| 0 <= j < i ==> !occurs_at(s, m, j)
}

/// `str::split_once`: the text before and after the first occurrence of `m`, if any.
pub open spec fn split_once_spec(s: Seq<char>, m: Seq<char>) -> Option<(Seq<char>, Seq<char>)> {
    if exists|i: int| occurs_at(s, m, i) {
        let i = choose|i: int| first_occurrence(s, m, i);
        Some((s.take(i), s.skip(i + m.len())))
    } else {
        None
    }
}

/// There is one first occurrence.
pub proof fn lemma_first_occurrence_unique(s: Seq<char>, m: Seq<char>, i: int, j: int)
    requires
        first_occurrence(s, m, i),
        first_occurrence(s, m, j),
    ensures
        i == j,
{
}

/// Where `m` occurs somewhere in `s`, it has a first occurrence.
pub proof fn lemma_first_occurrence_exists(s: Seq<char>, m: Seq<char>, i: int)
    requires
        occurs_at(s, m, i),
    ensures
        exists|k: int| first_occurrence(s, m, k),
    decreases i,
{
    if exists|j: int| 0 <= j < i && occurs_at(s, m, j) {
        let j = choose|j: int| 0 <= j < i && occurs_at(s, m, j);
        lemma_first_occurrence_exists(s, m, j);
    } else {
        assert(first_occurrence(s, m, i));
    }
}

fn occurs_at_exec(s: &Vec<char>, m: &Vec<char>, i: usize) -> (r: bool)
    requires
        i + m.len() <= s.len(),
    ensures
        r == occurs_at(s@, m@, i as int),
{
    let mut k: usize = 0;
    while k < m.len()
        invariant
            i + m.len() <= s.len(),
            k <= m.len(),
            forall|t: int| 0 <= t < k ==> s@[i + t] == m@[t],
        decreases m.len() - k,
    {
        if s[i + k] != m[k] {
            assert(s@.subrange(i as int, i + m.len())[k as int] != m@[k as int]);
            return false;
        }
        k = k + 1;
    }
    assert(s@.subrange(i as int, i + m.len()) == m@);
    true
}

/// The index of the first occurrence of `m` in `s`.
pub fn find(s: &Vec<char>, m: &Vec<char>) -> (r: Option<usize>)
    ensures
        match r {
            Some(i) => first_occurrence(s@, m@, i as int),
            None => forall|j: int| !occurs_at(s@, m@, j),
        },
{
    if m.len() > s.len() {
        return None;
    }
    let last: usize = s.len() - m.len();
    let mut i: usize = 0;
    loop
        invariant
            last + m.len() == s.len(),
            i <= last,
            forall|j: int| 0 <= j < i ==> !occurs_at(s@, m@, j),
        decreases last - i,
    {
        if occurs_at_exec(s, m, i) {
            return Some(i);
        }
        if i == last {
            return None;
        }
        i = i + 1;
    }
}

/// `str::split_once`: the text before and after the first occurrence of `marker`.
pub fn split_once(s: &str, marker: &str) -> (r: Option<(String, String)>)
    ensures
        match split_once_spec(s@, marker@) {
            Some((a, b)) => r matches Some((x, y)) && x@ == a && y@ == b,
            None => r is None,
        },
{
    let cs = chars_of(s);
    let ms = chars_of(marker);
    match find(&cs, &ms) {
        Some(i) => {
            proof {
                let k = choose|k: int| first_occurrence(s@, marker@, k);
                lemma_first_occurrence_unique(s@, marker@, i as int, k);
            }
            assert(i + ms.len() <= cs.len());
            let first = s.substring_char(0, i).to_owned();
            let second = s.substring_char(i + ms.len(), cs.len()).to_owned();
            assert(s@.skip(i + marker@.len()) == s@.subrange(i + marker@.len(), s@.len() as int));
            Some((first, second))
        },
        None => None,
    }
}

} // verus!
