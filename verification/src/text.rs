//! Character-sequence utilities: searching, splitting, joining, replacing
//! and decimal rendering, each specified over `Seq<char>`.
use vstd::prelude::*;

verus! {

/// Appends one character to a string (`String::push` of std).
#[verifier::external_body]
pub(crate) fn push_char(s: &mut String, c: char)
    ensures
        final(s)@ == old(s)@.push(c),
{
    s.push(c)
}

/// The characters of `s`, in order.
pub fn chars_of(s: &str) -> (r: Vec<char>)
    ensures
        r@ == s@,
{
    let mut r: Vec<char> = Vec::new();
    for c in it: s.chars()
        invariant
            r@ == it.seq().take(it.index() as int),
    {
        r.push(c);
    }
    r
}


/// `pat` occurs in `s` starting at index `i`.
pub open spec fn occurs_at(s: Seq<char>, pat: Seq<char>, i: int) -> bool {
    0 <= i && i + pat.len() <= s.len() && s.subrange(i, i + pat.len()) == pat
}

/// The first index at or after `start` where `pat` occurs in `s`.
pub open spec fn find_from(s: Seq<char>, pat: Seq<char>, start: nat) -> Option<int>
    decreases s.len() + 1 - start,
{
    if start + pat.len() > s.len() {
        None
    } else if occurs_at(s, pat, start as int) {
        Some(start as int)
    } else {
        find_from(s, pat, start + 1)
    }
}

/// The first index where `pat` occurs in `s`.
pub open spec fn find(s: Seq<char>, pat: Seq<char>) -> Option<int> {
    find_from(s, pat, 0)
}

/// `pat` occurs somewhere in `s`.
pub open spec fn contains(s: Seq<char>, pat: Seq<char>) -> bool {
    exists|i: int| occurs_at(s, pat, i)
}

/// What `find_from` returns: the least occurrence at or after `start`, or none.
pub proof fn lemma_find_from(s: Seq<char>, pat: Seq<char>, start: nat)
    ensures
        match find_from(s, pat, start) {
            Some(i) => start <= i && occurs_at(s, pat, i) && forall|j: int|
                start <= j < i ==> !#[trigger] occurs_at(s, pat, j),
            None => forall|j: int| start <= j ==> !#[trigger] occurs_at(s, pat, j),
        },
    decreases s.len() + 1 - start,
{
    if start + pat.len() > s.len() {
    } else if occurs_at(s, pat, start as int) {
    } else {
        lemma_find_from(s, pat, start + 1);
    }
}

/// `find` is the least occurrence of `pat`, or `None` when there is none.
pub proof fn lemma_find(s: Seq<char>, pat: Seq<char>)
    ensures
        match find(s, pat) {
            Some(i) => occurs_at(s, pat, i) && forall|j: int|
                0 <= j < i ==> !#[trigger] occurs_at(s, pat, j),
            None => !contains(s, pat),
        },
{
    lemma_find_from(s, pat, 0);
}

/// An occurrence with none before it is what `find` returns; no occurrence gives `None`.
pub proof fn lemma_find_is(s: Seq<char>, pat: Seq<char>, i: int)
    requires
        occurs_at(s, pat, i),
        forall|j: int| 0 <= j < i ==> !#[trigger] occurs_at(s, pat, j),
    ensures
        find(s, pat) == Some(i),
{
    lemma_find(s, pat);
    match find(s, pat) {
        Some(k) => {
            if k < i {
                assert(!occurs_at(s, pat, k));
            } else if k > i {
                assert(!occurs_at(s, pat, i));
            }
        },
        None => {
            assert(!occurs_at(s, pat, i));
        },
    }
}

/// `s` cut into the pieces between the occurrences of `sep`, left to right.
pub open spec fn split(s: Seq<char>, sep: Seq<char>) -> Seq<Seq<char>>
    decreases s.len(),
{
    match find(s, sep) {
        Some(i) => if sep.len() == 0 {
            seq![s]
        } else {
            proof {
                lemma_find(s, sep);
            }
            seq![s.take(i)] + split(s.skip(i + sep.len()), sep)
        },
        None => seq![s],
    }
}

/// The pieces laid end to end with `sep` between each two.
pub open spec fn join(parts: Seq<Seq<char>>, sep: Seq<char>) -> Seq<char>
    decreases parts.len(),
{
    if parts.len() == 0 {
        Seq::empty()
    } else if parts.len() == 1 {
        parts[0]
    } else {
        parts[0] + sep + join(parts.drop_first(), sep)
    }
}

/// `s` with each occurrence of `from` (left to right, not overlapping) put as `to`.
pub open spec fn replace(s: Seq<char>, from: Seq<char>, to: Seq<char>) -> Seq<char> {
    join(split(s, from), to)
}


/// Splitting always yields at least one piece.
pub proof fn lemma_split_nonempty(s: Seq<char>, sep: Seq<char>)
    ensures
        split(s, sep).len() >= 1,
    decreases s.len(),
{
    lemma_find(s, sep);
    if let Some(i) = find(s, sep) {
        if sep.len() > 0 {
            lemma_split_nonempty(s.skip(i + sep.len()), sep);
        }
    }
}

/// Joining the pieces of a split with the same separator gives back the string.
pub proof fn lemma_split_join(s: Seq<char>, sep: Seq<char>)
    requires
        sep.len() > 0,
    ensures
        join(split(s, sep), sep) == s,
    decreases s.len(),
{
    lemma_find(s, sep);
    if let Some(i) = find(s, sep) {
        let rest = s.skip(i + sep.len());
        lemma_split_join(rest, sep);
        lemma_split_nonempty(rest, sep);
        let parts = split(s, sep);
        assert(parts.drop_first() =~= split(rest, sep));
        assert(s.subrange(i, i + sep.len()) == sep);
        assert(s =~= s.take(i) + sep + rest);
    }
}

/// No piece of a split holds the separator.
pub proof fn lemma_split_pieces_avoid_sep(s: Seq<char>, sep: Seq<char>)
    requires
        sep.len() > 0,
    ensures
        forall|k: int| 0 <= k < split(s, sep).len() ==> !contains(#[trigger] split(s, sep)[k], sep),
    decreases s.len(),
{
    lemma_find(s, sep);
    match find(s, sep) {
        Some(i) => {
            let rest = s.skip(i + sep.len());
            lemma_split_pieces_avoid_sep(rest, sep);
            let parts = split(s, sep);
            assert forall|k: int| 0 <= k < parts.len() implies !contains(#[trigger] parts[k], sep) by {
                if k == 0 {
                    let head = s.take(i);
                    if contains(head, sep) {
                        let j = choose|j: int| occurs_at(head, sep, j);
                        assert(head.subrange(j, j + sep.len()) =~= s.subrange(j, j + sep.len()));
                        assert(occurs_at(s, sep, j));
                    }
                } else {
                    assert(parts[k] == split(rest, sep)[k - 1]);
                }
            }
        },
        None => {},
    }
}


/// An occurrence in a suffix is an occurrence in the whole, shifted.
pub proof fn lemma_occurs_in_suffix(s: Seq<char>, pat: Seq<char>, start: int, j: int)
    requires
        0 <= start <= s.len(),
        0 <= j,
    ensures
        occurs_at(s.skip(start), pat, j) <==> occurs_at(s, pat, start + j),
{
    if 0 <= j && j + pat.len() <= s.len() - start {
        assert(s.skip(start).subrange(j, j + pat.len()) =~= s.subrange(start + j, start + j + pat.len()));
    }
}

/// Whether `pat` occurs in `s` at index `i`.
pub fn matches_at(s: &Vec<char>, pat: &Vec<char>, i: usize) -> (r: bool)
    ensures
        r == occurs_at(s@, pat@, i as int),
{
    if i > s.len() || pat.len() > s.len() - i {
        return false;
    }
    let mut k: usize = 0;
    while k < pat.len()
        invariant
            k <= pat.len(),
            i + pat.len() <= s.len(),
            forall|m: int| 0 <= m < k ==> s@[i + m] == pat@[m],
        decreases pat.len() - k,
    {
        if s[i + k] != pat[k] {
            assert(s@.subrange(i as int, i + pat.len())[k as int] != pat@[k as int]);
            return false;
        }
        k = k + 1;
    }
    assert(s@.subrange(i as int, i + pat.len()) =~= pat@);
    true
}

/// The first occurrence of `pat` in `s` at or after `start`.
pub fn find_at_or_after(s: &Vec<char>, pat: &Vec<char>, start: usize) -> (r: Option<usize>)
    requires
        start <= s.len(),
    ensures
        match r {
            Some(i) => start <= i && find(s@.skip(start as int), pat@) == Some(i - start),
            None => find(s@.skip(start as int), pat@) is None,
        },
{
    let ghost t = s@.skip(start as int);
    if pat.len() > s.len() - start {
        proof {
            lemma_find(t, pat@);
        }
        return None;
    }
    let last = s.len() - pat.len();
    let mut k: usize = start;
    loop
        invariant
            start <= k <= last,
            last + pat.len() == s.len(),
            start <= last,
            t == s@.skip(start as int),
            forall|j: int| start <= j < k ==> !#[trigger] occurs_at(s@, pat@, j),
        ensures
            forall|j: int| start <= j <= last ==> !#[trigger] occurs_at(s@, pat@, j),
        decreases last - k,
    {
        if matches_at(s, pat, k) {
            proof {
                assert forall|j: int| 0 <= j < k - start implies !#[trigger] occurs_at(t, pat@, j) by {
                    lemma_occurs_in_suffix(s@, pat@, start as int, j);
                }
                lemma_occurs_in_suffix(s@, pat@, start as int, k - start);
                lemma_find_is(t, pat@, k - start);
            }
            return Some(k);
        }
        if k == last {
            break;
        }
        k = k + 1;
    }
    proof {
        lemma_find(t, pat@);
        if let Some(i) = find(t, pat@) {
            lemma_occurs_in_suffix(s@, pat@, start as int, i);
        }
    }
    None
}

/// The characters `cs[from..to]` as a string.
pub fn string_of(cs: &Vec<char>, from: usize, to: usize) -> (r: String)
    requires
        from <= to <= cs.len(),
    ensures
        r@ == cs@.subrange(from as int, to as int),
{
    let mut r = String::new();
    let mut k = from;
    while k < to
        invariant
            from <= k <= to <= cs.len(),
            r@ == cs@.subrange(from as int, k as int),
        decreases to - k,
    {
        push_char(&mut r, cs[k]);
        k = k + 1;
        assert(r@ =~= cs@.subrange(from as int, k as int));
    }
    r
}

/// `s` cut at each occurrence of `sep` (`str::split` of std with a string pattern).
pub fn split_str(s: &str, sep: &str) -> (r: Vec<String>)
    requires
        sep@.len() > 0,
    ensures
        r.deep_view() == split(s@, sep@),
{
    let cs = chars_of(s);
    let ps = chars_of(sep);
    let mut pieces: Vec<String> = Vec::new();
    let mut pos: usize = 0;
    proof {
        assert(s@.skip(0) =~= s@);
        assert(pieces.deep_view() + split(s@, sep@) =~= split(s@, sep@));
    }
    loop
        invariant
            cs@ == s@,
            ps@ == sep@,
            ps@.len() > 0,
            pos <= cs.len(),
            split(s@, sep@) == pieces.deep_view() + split(s@.skip(pos as int), sep@),
        decreases cs.len() - pos,
    {
        let ghost rest = s@.skip(pos as int);
        let ghost before = pieces.deep_view();
        match find_at_or_after(&cs, &ps, pos) {
            Some(i) => {
                proof {
                    lemma_find(rest, sep@);
                }
                let piece = string_of(&cs, pos, i);
                pieces.push(piece);
                proof {
                    assert(rest.take(i - pos) =~= piece@);
                    assert(rest.skip(i - pos + sep@.len()) =~= s@.skip(i + sep@.len()));
                    assert(pieces.deep_view() =~= before.push(piece@));
                    assert(split(s@, sep@) =~= pieces.deep_view() + split(
                        s@.skip(i + sep@.len()),
                        sep@,
                    ));
                }
                pos = i + ps.len();
            },
            None => {
                let piece = string_of(&cs, pos, cs.len());
                pieces.push(piece);
                proof {
                    assert(rest =~= piece@);
                    assert(pieces.deep_view() =~= before.push(piece@));
                    assert(split(s@, sep@) =~= pieces.deep_view());
                }
                return pieces;
            },
        }
    }
}


/// Joining after appending one more piece puts the separator and the piece at the end.
pub proof fn lemma_join_push(parts: Seq<Seq<char>>, sep: Seq<char>, x: Seq<char>)
    ensures
        join(parts.push(x), sep) == if parts.len() == 0 {
            x
        } else {
            join(parts, sep) + sep + x
        },
    decreases parts.len(),
{
    if parts.len() == 0 {
        assert(parts.push(x)[0] == x);
    } else if parts.len() == 1 {
        assert(parts.push(x).drop_first() =~= seq![x]);
        assert(join(seq![x], sep) == x);
    } else {
        lemma_join_push(parts.drop_first(), sep, x);
        assert(parts.push(x).drop_first() =~= parts.drop_first().push(x));
        let j = join(parts.drop_first(), sep);
        assert(parts[0] + sep + (j + sep + x) =~= parts[0] + sep + j + sep + x);
    }
}

/// The strings of `parts` with `sep` between each two (`join` of std on string slices).
pub fn join_strings(parts: &Vec<String>, sep: &str) -> (r: String)
    ensures
        r@ == join(parts.deep_view(), sep@),
{
    let mut r = String::new();
    let mut k: usize = 0;
    while k < parts.len()
        invariant
            k <= parts.len(),
            r@ == join(parts.deep_view().take(k as int), sep@),
        decreases parts.len() - k,
    {
        proof {
            lemma_join_push(parts.deep_view().take(k as int), sep@, parts[k as int]@);
            assert(parts.deep_view().take(k + 1) =~= parts.deep_view().take(k as int).push(
                parts[k as int]@,
            ));
        }
        if k > 0 {
            r.append(sep);
        }
        r.append(parts[k].as_str());
        k = k + 1;
    }
    assert(parts.deep_view().take(k as int) =~= parts.deep_view());
    r
}

/// `s` with every occurrence of `from` put as `to` (`str::replace` of std).
pub fn replace_str(s: &str, from: &str, to: &str) -> (r: String)
    requires
        from@.len() > 0,
    ensures
        r@ == replace(s@, from@, to@),
{
    let parts = split_str(s, from);
    join_strings(&parts, to)
}

/// The decimal digit `d` as a character.
pub open spec fn digit_char(d: nat) -> char {
    (d + 48) as char
}

/// The decimal rendering of `n`, without sign or leading zeros.
pub open spec fn decimal(n: nat) -> Seq<char>
    decreases n,
{
    if n < 10 {
        seq![digit_char(n)]
    } else {
        decimal(n / 10).push(digit_char(n % 10))
    }
}

/// Appends the decimal rendering of `n` to `s` (what `{}` of std writes for an unsigned integer).
pub fn push_decimal(s: &mut String, n: u64)
    ensures
        final(s)@ == old(s)@ + decimal(n as nat),
    decreases n,
{
    if n >= 10 {
        push_decimal(s, n / 10);
    }
    let d: u8 = (n % 10) as u8;
    let c: char = (d + 48u8) as char;
    assert(c == digit_char((n % 10) as nat));
    push_char(s, c);
    assert(final(s)@ =~= old(s)@ + decimal(n as nat));
}


/// Whether two strings hold the same characters.
pub fn str_eq(a: &str, b: &str) -> (r: bool)
    ensures
        r == (a@ == b@),
{
    a.to_owned() == b.to_owned()
}

/// `s` begins with `prefix`.
pub open spec fn starts_with(s: Seq<char>, prefix: Seq<char>) -> bool {
    prefix.len() <= s.len() && s.take(prefix.len() as int) == prefix
}

/// Whether `s` begins with `prefix` (`str::starts_with` of std with a string pattern).
pub fn starts_with_str(s: &str, prefix: &str) -> (r: bool)
    ensures
        r == starts_with(s@, prefix@),
{
    let cs = chars_of(s);
    let ps = chars_of(prefix);
    let r = matches_at(&cs, &ps, 0);
    proof {
        if ps@.len() <= cs@.len() {
            assert(cs@.subrange(0, ps@.len() as int) == cs@.take(ps@.len() as int));
        }
    }
    r
}


/// Every character of a decimal rendering is a digit.
pub proof fn lemma_decimal_digits(n: nat)
    ensures
        forall|k: int| 0 <= k < decimal(n).len() ==> '0' <= #[trigger] decimal(n)[k] <= '9',
        decimal(n).len() >= 1,
    decreases n,
{
    if n >= 10 {
        lemma_decimal_digits(n / 10);
    }
}


/// Joining with no separator lays the pieces end to end.
pub proof fn lemma_join_empty_is_flatten(parts: Seq<Seq<char>>)
    ensures
        join(parts, Seq::empty()) == parts.flatten(),
    decreases parts.len(),
{
    if parts.len() == 1 {
        assert(parts.drop_first() =~= Seq::<Seq<char>>::empty());
        assert(parts.drop_first().flatten() == Seq::<char>::empty());
        assert(parts.flatten() =~= parts[0]);
    } else if parts.len() > 1 {
        lemma_join_empty_is_flatten(parts.drop_first());
        assert(join(parts, Seq::empty()) =~= parts[0] + parts.drop_first().flatten());
    }
}

} // verus!
