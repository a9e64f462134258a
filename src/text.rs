use vstd::prelude::*;

verus! {

/// ASCII whitespace: space, tab, line feed, form feed and carriage return.
pub open spec fn is_space(c: char) -> bool {
    c == ' ' || c == '\t' || c == '\n' || c == '\x0C' || c == '\r'
}

/// Reads `s` left to right, cutting at runs of whitespace: the words finished so far
/// and the word still being read.
pub open spec fn scan_words(s: Seq<char>) -> (Seq<Seq<char>>, Seq<char>)
    decreases s.len(),
{
    if s.len() == 0 {
        (Seq::empty(), Seq::empty())
    } else {
        let (done, cur) = scan_words(s.drop_last());
        let c = s.last();
        if is_space(c) {
            if cur.len() > 0 {
                (done.push(cur), Seq::empty())
            } else {
                (done, Seq::empty())
            }
        } else {
            (done, cur.push(c))
        }
    }
}

/// The whitespace-separated words of `s`, in order; none of them is empty.
pub open spec fn words(s: Seq<char>) -> Seq<Seq<char>> {
    let (done, cur) = scan_words(s);
    if cur.len() > 0 {
        done.push(cur)
    } else {
        done
    }
}

/// Reads `s` left to right, cutting at every `/`: the fields finished so far and the
/// field still being read.
pub open spec fn scan_fields(s: Seq<char>) -> (Seq<Seq<char>>, Seq<char>)
    decreases s.len(),
{
    if s.len() == 0 {
        (Seq::empty(), Seq::empty())
    } else {
        let (done, cur) = scan_fields(s.drop_last());
        let c = s.last();
        if c == '/' {
            (done.push(cur), Seq::empty())
        } else {
            (done, cur.push(c))
        }
    }
}

/// The `/`-separated fields of `s`, empty ones included: one more than there are slashes.
pub open spec fn fields(s: Seq<char>) -> Seq<Seq<char>> {
    let (done, cur) = scan_fields(s);
    done.push(cur)
}

pub open spec fn is_digit(c: char) -> bool {
    '0' <= c && c <= '9'
}

pub open spec fn all_digits(s: Seq<char>) -> bool {
    forall|i: int| 0 <= i < s.len() ==> is_digit(#[trigger] s[i])
}

/// The number that a string of decimal digits denotes.
pub open spec fn digits_value(s: Seq<char>) -> nat
    decreases s.len(),
{
    if s.len() == 0 {
        0
    } else {
        digits_value(s.drop_last()) * 10 + ((s.last() as u32) - ('0' as u32)) as nat
    }
}

/// The value of a string of decimal digits, when it is one: non-empty, digits only, at
/// least 1 and no larger than `usize` can hold.
pub open spec fn positive_value(s: Seq<char>) -> Option<nat> {
    if s.len() > 0 && all_digits(s) && 1 <= digits_value(s) <= usize::MAX {
        Some(digits_value(s))
    } else {
        None
    }
}

/// `s` without its leading `+`, if it has one.
pub open spec fn unsigned_part(s: Seq<char>) -> Seq<char> {
    if s.len() > 0 && s[0] == '+' {
        s.drop_first()
    } else {
        s
    }
}

/// The value of a 1-based index written in decimal, when it is one: an optional `+`,
/// then digits whose value is at least 1 and fits in `usize`.
pub open spec fn index_value(s: Seq<char>) -> Option<nat> {
    positive_value(unsigned_part(s))
}

fn is_space_char(c: char) -> (r: bool)
    ensures
        r == is_space(c),
{
    c == ' ' || c == '\t' || c == '\n' || c == '\x0C' || c == '\r'
}

/// Whether two texts hold the same characters.
pub fn same_text(a: &str, b: &str) -> (r: bool)
    ensures
        r == (a@ == b@),
{
    let n = a.unicode_len();
    if n != b.unicode_len() {
        return false;
    }
    let mut i: usize = 0;
    while i < n
        invariant
            n == a@.len(),
            n == b@.len(),
            i <= n,
            a@.subrange(0, i as int) == b@.subrange(0, i as int),
        decreases n - i,
    {
        if a.get_char(i) != b.get_char(i) {
            return false;
        }
        assert(a@.subrange(0, i + 1) =~= a@.subrange(0, i as int).push(a@[i as int]));
        assert(b@.subrange(0, i + 1) =~= b@.subrange(0, i as int).push(b@[i as int]));
        i = i + 1;
    }
    assert(a@ =~= a@.subrange(0, n as int));
    assert(b@ =~= b@.subrange(0, n as int));
    true
}

/// Splits a line into its whitespace-separated words.
pub fn split_words<'a>(line: &'a str) -> (r: Vec<&'a str>)
    ensures
        r@.map_values(|w: &str| w@) == words(line@),
{
    let n = line.unicode_len();
    let mut out: Vec<&'a str> = Vec::new();
    let mut start: usize = 0;
    let mut i: usize = 0;
    while i < n
        invariant
            n == line@.len(),
            start <= i <= n,
            scan_words(line@.subrange(0, i as int)) == (
                out@.map_values(|w: &str| w@),
                line@.subrange(start as int, i as int),
            ),
        decreases n - i,
    {
        let c = line.get_char(i);
        let ghost before = out@.map_values(|w: &str| w@);
        assert(line@.subrange(0, i + 1).drop_last() == line@.subrange(0, i as int));
        if is_space_char(c) {
            if start < i {
                let w = line.substring_char(start, i);
                out.push(w);
                assert(out@.map_values(|w: &str| w@) == before.push(w@));
            }
            start = i + 1;
            assert(line@.subrange(start as int, i + 1) =~= Seq::<char>::empty());
        } else {
            assert(line@.subrange(start as int, i + 1) =~= line@.subrange(
                start as int,
                i as int,
            ).push(c));
        }
        i = i + 1;
    }
    assert(line@.subrange(0, n as int) == line@);
    if start < n {
        let ghost before = out@.map_values(|w: &str| w@);
        let w = line.substring_char(start, n);
        out.push(w);
        assert(out@.map_values(|w: &str| w@) == before.push(w@));
    }
    out
}

/// Splits a word into its `/`-separated fields, keeping empty ones.
pub fn split_fields<'a>(word: &'a str) -> (r: Vec<&'a str>)
    ensures
        r@.map_values(|f: &str| f@) == fields(word@),
{
    let n = word.unicode_len();
    let mut out: Vec<&'a str> = Vec::new();
    let mut start: usize = 0;
    let mut i: usize = 0;
    while i < n
        invariant
            n == word@.len(),
            start <= i <= n,
            scan_fields(word@.subrange(0, i as int)) == (
                out@.map_values(|f: &str| f@),
                word@.subrange(start as int, i as int),
            ),
        decreases n - i,
    {
        let c = word.get_char(i);
        let ghost before = out@.map_values(|f: &str| f@);
        assert(word@.subrange(0, i + 1).drop_last() == word@.subrange(0, i as int));
        if c == '/' {
            let f = word.substring_char(start, i);
            out.push(f);
            assert(out@.map_values(|f: &str| f@) == before.push(f@));
            start = i + 1;
            assert(word@.subrange(start as int, i + 1) =~= Seq::<char>::empty());
        } else {
            assert(word@.subrange(start as int, i + 1) =~= word@.subrange(
                start as int,
                i as int,
            ).push(c));
        }
        i = i + 1;
    }
    assert(word@.subrange(0, n as int) == word@);
    let ghost before = out@.map_values(|f: &str| f@);
    let f = word.substring_char(start, n);
    out.push(f);
    assert(out@.map_values(|f: &str| f@) == before.push(f@));
    out
}

proof fn lemma_digits_value_grows(s: Seq<char>, i: int, j: int)
    requires
        0 <= i <= j <= s.len(),
        all_digits(s),
    ensures
        digits_value(s.subrange(0, i)) <= digits_value(s.subrange(0, j)),
    decreases j - i,
{
    if i < j {
        lemma_digits_value_grows(s, i, j - 1);
        assert(s.subrange(0, j).drop_last() == s.subrange(0, j - 1));
        assert(is_digit(s[j - 1]));
    }
}

proof fn lemma_scan_spaces(s: Seq<char>, i: int)
    requires
        0 <= i <= s.len(),
        forall|j: int| 0 <= j < i ==> is_space(#[trigger] s[j]),
    ensures
        scan_words(s.subrange(0, i)) == (Seq::<Seq<char>>::empty(), Seq::<char>::empty()),
    decreases i,
{
    if i > 0 {
        lemma_scan_spaces(s, i - 1);
        assert(s.subrange(0, i).drop_last() == s.subrange(0, i - 1));
        assert(is_space(s[i - 1]));
    }
}

/// Whitespace alone holds no word.
pub proof fn lemma_blank_has_no_words(s: Seq<char>)
    requires
        forall|j: int| 0 <= j < s.len() ==> is_space(#[trigger] s[j]),
    ensures
        words(s).len() == 0,
{
    lemma_scan_spaces(s, s.len() as int);
    assert(s.subrange(0, s.len() as int) == s);
}

proof fn lemma_scan_after_hash(s: Seq<char>, k: int, i: int)
    requires
        0 <= k < i <= s.len(),
        s[k] == '#',
        forall|j: int| 0 <= j < k ==> is_space(#[trigger] s[j]),
    ensures
        ({
            let (done, cur) = scan_words(s.subrange(0, i));
            (done.len() > 0 && done[0].len() > 0 && done[0][0] == '#') || (done.len() == 0
                && cur.len() > 0 && cur[0] == '#')
        }),
    decreases i,
{
    assert(s.subrange(0, i).drop_last() == s.subrange(0, i - 1));
    if i == k + 1 {
        lemma_scan_spaces(s, k);
    } else {
        lemma_scan_after_hash(s, k, i - 1);
        let (done, cur) = scan_words(s.subrange(0, i - 1));
        if done.len() > 0 {
            assert(done.push(cur)[0] == done[0]);
        } else if !is_space(s[i - 1]) {
            assert(cur.push(s[i - 1])[0] == cur[0]);
        }
    }
}

/// Where the first character that is not whitespace is `#`, the first word starts
/// with `#`.
pub proof fn lemma_comment_first_word(s: Seq<char>, k: int)
    requires
        0 <= k < s.len(),
        s[k] == '#',
        forall|j: int| 0 <= j < k ==> is_space(#[trigger] s[j]),
    ensures
        words(s).len() > 0,
        words(s)[0].len() > 0,
        words(s)[0][0] == '#',
{
    lemma_scan_after_hash(s, k, s.len() as int);
    assert(s.subrange(0, s.len() as int) == s);
    let (done, cur) = scan_words(s);
    if done.len() > 0 && cur.len() > 0 {
        assert(done.push(cur)[0] == done[0]);
    }
}

/// Reads a 1-based index written in decimal.
pub fn parse_index(s: &str) -> (r: Option<usize>)
    ensures
        r is Some <==> index_value(s@) is Some,
        r is Some ==> r->0 as nat == index_value(s@)->0,
{
    let n = s.unicode_len();
    if n > 0 && s.get_char(0) == '+' {
        let rest = s.substring_char(1, n);
        assert(rest@ == s@.drop_first());
        parse_positive(rest)
    } else {
        parse_positive(s)
    }
}

fn parse_positive(s: &str) -> (r: Option<usize>)
    ensures
        r is Some <==> positive_value(s@) is Some,
        r is Some ==> r->0 as nat == positive_value(s@)->0,
{
    let n = s.unicode_len();
    if n == 0 {
        return None;
    }
    let mut acc: usize = 0;
    let mut i: usize = 0;
    while i < n
        invariant
            n == s@.len(),
            i <= n,
            all_digits(s@.subrange(0, i as int)),
            acc as nat == digits_value(s@.subrange(0, i as int)),
        decreases n - i,
    {
        let c = s.get_char(i);
        assert(s@.subrange(0, i + 1).drop_last() == s@.subrange(0, i as int));
        if !('0' <= c && c <= '9') {
            assert(!all_digits(s@));
            return None;
        }
        assert(all_digits(s@.subrange(0, i + 1))) by {
            assert forall|k: int| 0 <= k < i + 1 implies is_digit(
                #[trigger] s@.subrange(0, i + 1)[k],
            ) by {
                if k < i {
                    assert(s@.subrange(0, i + 1)[k] == s@.subrange(0, i as int)[k]);
                }
            }
        }
        let d = (c as u32 - '0' as u32) as usize;
        let next = match acc.checked_mul(10) {
            Some(m) => m.checked_add(d),
            None => None,
        };
        match next {
            Some(v) => {
                acc = v;
            },
            None => {
                proof {
                    if all_digits(s@) {
                        lemma_digits_value_grows(s@, i + 1, n as int);
                        assert(s@.subrange(0, n as int) == s@);
                    }
                }
                return None;
            },
        }
        i = i + 1;
    }
    assert(s@.subrange(0, n as int) == s@);
    if acc == 0 {
        return None;
    }
    Some(acc)
}

} // verus!
