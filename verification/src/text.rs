//! Text as sequences of characters.

use vstd::prelude::*;
use vstd::string::*;

verus! {

/// The texts held by a sequence of strings.
pub open spec fn texts(v: Seq<String>) -> Seq<Seq<char>> {
    Seq::new(v.len(), |i: int| v[i]@)
}

/// `String::push` of std: appends one character at the end and changes nothing else.
pub assume_specification[ String::push ](s: &mut String, c: char)
    ensures
        final(s)@ == old(s)@.push(c),
;

/// The characters of `s`, in order.
pub fn chars_of(s: &str) -> (r: Vec<char>)
    ensures
        r@ == s@,
{
    let mut r: Vec<char> = Vec::new();
    for c in it: s.chars()
        invariant
            it.seq() == s@,
            r@ == s@.take(it.index() as int),
    {
        r.push(c);
        assert(r@ =~= s@.take(it.index() + 1));
    }
    assert(s@.take(s@.len() as int) =~= s@);
    r
}

/// The string made of `cs[from..to]`.
pub fn string_of(cs: &[char], from: usize, to: usize) -> (r: String)
    requires
        from <= to <= cs@.len(),
    ensures
        r@ == cs@.subrange(from as int, to as int),
{
    let mut r = String::new();
    let mut i: usize = from;
    while i < to
        invariant
            from <= i <= to <= cs@.len(),
            r@ == cs@.subrange(from as int, i as int),
        decreases to - i,
    {
        r.push(cs[i]);
        i += 1;
        assert(r@ =~= cs@.subrange(from as int, i as int));
    }
    r
}

/// Whether two strings hold the same characters.
pub fn str_eq(a: &str, b: &str) -> (r: bool)
    ensures
        r == (a@ == b@),
{
    a.to_owned() == b.to_owned()
}

/// The texts held by a sequence of string slices.
pub open spec fn slices(v: Seq<&str>) -> Seq<Seq<char>> {
    Seq::new(v.len(), |i: int| v[i]@)
}

/// Owned copies of `v`.
pub fn strings(v: &[&str]) -> (r: Vec<String>)
    ensures
        texts(r@) == slices(v@),
{
    let mut r: Vec<String> = Vec::new();
    let mut i: usize = 0;
    while i < v.len()
        invariant
            i <= v@.len(),
            r@.len() == i,
            forall|k: int| 0 <= k < i ==> (#[trigger] r@[k])@ == v@[k]@,
        decreases v@.len() - i,
    {
        r.push(v[i].to_owned());
        i += 1;
    }
    assert(texts(r@) =~= slices(v@));
    r
}

/// Copies of the strings in `v`.
pub fn copies(v: &Vec<String>) -> (r: Vec<String>)
    ensures
        texts(r@) == texts(v@),
{
    let mut r: Vec<String> = Vec::new();
    let mut i: usize = 0;
    while i < v.len()
        invariant
            i <= v@.len(),
            r@.len() == i,
            forall|k: int| 0 <= k < i ==> (#[trigger] r@[k])@ == v@[k]@,
        decreases v@.len() - i,
    {
        r.push(v[i].clone());
        i += 1;
    }
    assert(texts(r@) =~= texts(v@));
    r
}

/// The pieces of `s` between occurrences of `sep`, the empty ones among them.
pub open spec fn split(s: Seq<char>, sep: char) -> Seq<Seq<char>>
    decreases s.len(),
{
    if s.len() == 0 {
        seq![Seq::empty()]
    } else {
        let before = split(s.drop_last(), sep);
        if s.last() == sep {
            before.push(Seq::empty())
        } else {
            before.drop_last().push(before.last().push(s.last()))
        }
    }
}

/// `pieces` with `sep` between each two of them.
pub open spec fn join(pieces: Seq<Seq<char>>, sep: Seq<char>) -> Seq<char>
    decreases pieces.len(),
{
    if pieces.len() == 0 {
        Seq::empty()
    } else if pieces.len() == 1 {
        pieces[0]
    } else {
        join(pieces.drop_last(), sep) + sep + pieces.last()
    }
}

/// Splitting and joining are inverse: the pieces hold no separator, and joined by it
/// they make up the text again.
pub proof fn split_then_join(s: Seq<char>, sep: char)
    ensures
        split(s, sep).len() >= 1,
        forall|i: int| 0 <= i < split(s, sep).len() ==> !(#[trigger] split(s, sep)[i]).contains(sep),
        join(split(s, sep), seq![sep]) == s,
    decreases s.len(),
{
    if s.len() > 0 {
        let before = split(s.drop_last(), sep);
        split_then_join(s.drop_last(), sep);
        let all = split(s, sep);
        assert(s =~= s.drop_last().push(s.last()));
        if s.last() == sep {
            assert(all.drop_last() =~= before);
            assert(join(all, seq![sep]) =~= s);
            assert forall|i: int| 0 <= i < all.len() implies !(#[trigger] all[i]).contains(sep) by {
                if i < before.len() {
                    assert(all[i] == before[i]);
                }
            }
        } else {
            let head = before.drop_last();
            assert(all.drop_last() =~= head);
            if head.len() > 0 {
                assert(join(all, seq![sep]) == join(head, seq![sep]) + seq![sep] + all.last());
                assert(join(before, seq![sep]) == join(head, seq![sep]) + seq![sep] + before.last());
            }
            assert(join(all, seq![sep]) =~= s);
            assert forall|i: int| 0 <= i < all.len() implies !(#[trigger] all[i]).contains(sep) by {
                if i < head.len() {
                    assert(all[i] == before[i]);
                } else {
                    let piece = before.last();
                    assert(piece == before[before.len() - 1]);
                    if piece.push(s.last()).contains(sep) {
                        let k = choose|k: int| 0 <= k < piece.len() + 1 && piece.push(s.last())[k] == sep;
                        assert(piece[k] == sep);
                    }
                }
            }
        }
    }
}

proof fn split_after_sep(head: Seq<char>, sep: char, piece: Seq<char>)
    requires
        !piece.contains(sep),
    ensures
        split(head + seq![sep] + piece, sep) == split(head, sep).push(piece),
    decreases piece.len(),
{
    let s = head + seq![sep] + piece;
    if piece.len() == 0 {
        assert(s.drop_last() =~= head);
        assert(piece =~= Seq::<char>::empty());
    } else {
        let shorter = piece.drop_last();
        assert(piece[piece.len() - 1] != sep);
        if shorter.contains(sep) {
            let k = choose|k: int| 0 <= k < shorter.len() && shorter[k] == sep;
            assert(piece[k] == sep);
        }
        split_after_sep(head, sep, shorter);
        assert(s.drop_last() =~= head + seq![sep] + shorter);
        let before = split(head, sep).push(shorter);
        assert(before.drop_last() =~= split(head, sep));
        assert(shorter.push(piece.last()) =~= piece);
    }
}

proof fn split_without_sep(piece: Seq<char>, sep: char)
    requires
        !piece.contains(sep),
    ensures
        split(piece, sep) == seq![piece],
    decreases piece.len(),
{
    if piece.len() == 0 {
        assert(piece =~= Seq::<char>::empty());
    } else {
        let shorter = piece.drop_last();
        assert(piece[piece.len() - 1] != sep);
        if shorter.contains(sep) {
            let k = choose|k: int| 0 <= k < shorter.len() && shorter[k] == sep;
            assert(piece[k] == sep);
        }
        split_without_sep(shorter, sep);
        assert(shorter.push(piece.last()) =~= piece);
        assert(split(piece, sep) =~= seq![piece]);
    }
}

/// Pieces without the separator, joined by it, split into the same pieces again.
pub proof fn join_then_split(pieces: Seq<Seq<char>>, sep: char)
    requires
        pieces.len() >= 1,
        forall|i: int| 0 <= i < pieces.len() ==> !(#[trigger] pieces[i]).contains(sep),
    ensures
        split(join(pieces, seq![sep]), sep) == pieces,
    decreases pieces.len(),
{
    assert(!pieces[pieces.len() - 1].contains(sep));
    if pieces.len() == 1 {
        split_without_sep(pieces[0], sep);
        assert(pieces =~= seq![pieces[0]]);
    } else {
        let head = pieces.drop_last();
        assert forall|i: int| 0 <= i < head.len() implies !(#[trigger] head[i]).contains(sep) by {
            assert(head[i] == pieces[i]);
        }
        join_then_split(head, sep);
        split_after_sep(join(head, seq![sep]), sep, pieces.last());
        assert(head.push(pieces.last()) =~= pieces);
    }
}

/// The pieces of `s` between occurrences of `sep`.
pub fn split_on(s: &str, sep: char) -> (r: Vec<String>)
    ensures
        texts(r@) == split(s@, sep),
{
    let cs = chars_of(s);
    let mut r: Vec<String> = Vec::new();
    let mut piece = String::new();
    let mut i: usize = 0;
    assert(s@.take(0) =~= Seq::<char>::empty());
    assert(texts(r@).push(piece@) =~= split(s@.take(0), sep));
    while i < cs.len()
        invariant
            cs@ == s@,
            i <= cs@.len(),
            texts(r@).push(piece@) == split(s@.take(i as int), sep),
        decreases cs@.len() - i,
    {
        let c = cs[i];
        let ghost head = texts(r@);
        proof {
            assert(s@.take(i + 1).drop_last() =~= s@.take(i as int));
            assert(head.push(piece@).drop_last() =~= head);
        }
        if c == sep {
            let ghost done = piece@;
            r.push(piece);
            piece = String::new();
            assert(texts(r@) =~= head.push(done));
        } else {
            piece.push(c);
        }
        i += 1;
    }
    let ghost head = texts(r@);
    let ghost last = piece@;
    r.push(piece);
    assert(texts(r@) =~= head.push(last));
    assert(s@.take(s@.len() as int) =~= s@);
    r
}

/// The text of `pieces` with `sep` between each two of them.
pub fn join_with(pieces: &Vec<String>, sep: &str) -> (r: String)
    ensures
        r@ == join(texts(pieces@), sep@),
{
    let mut r = String::new();
    let mut i: usize = 0;
    let ghost all = texts(pieces@);
    while i < pieces.len()
        invariant
            i <= pieces@.len(),
            all == texts(pieces@),
            r@ == join(all.take(i as int), sep@),
        decreases pieces@.len() - i,
    {
        if i > 0 {
            r.append(sep);
        }
        r.append(pieces[i].as_str());
        assert(all.take(i + 1).drop_last() =~= all.take(i as int));
        assert(r@ =~= join(all.take(i + 1), sep@));
        i += 1;
    }
    assert(all.take(all.len() as int) =~= all);
    r
}

/// A line that a line feed ended, without the carriage return before that line feed.
pub open spec fn without_carriage_return(line: Seq<char>) -> Seq<char> {
    if line.len() > 0 && line.last() == '\r' {
        line.drop_last()
    } else {
        line
    }
}

/// The lines of `s`. Each ends with a line feed or with a carriage return and a line feed,
/// which do not belong to it; what follows the last line feed is a line of its own unless
/// it is empty.
pub open spec fn lines(s: Seq<char>) -> Seq<Seq<char>> {
    let pieces = split(s, '\n');
    let ended = Seq::new(
        (pieces.len() - 1) as nat,
        |i: int| without_carriage_return(pieces[i]),
    );
    if pieces.last().len() == 0 {
        ended
    } else {
        ended.push(pieces.last())
    }
}

/// The lines of `s`.
pub fn lines_of(s: &str) -> (r: Vec<String>)
    ensures
        texts(r@) == lines(s@),
{
    let pieces = split_on(s, '\n');
    let ghost all = split(s@, '\n');
    proof {
        split_then_join(s@, '\n');
    }
    assert(all.len() == pieces@.len());
    let last: usize = pieces.len() - 1;
    let mut r: Vec<String> = Vec::new();
    let mut i: usize = 0;
    while i < last
        invariant
            all == texts(pieces@),
            last + 1 == pieces@.len(),
            i <= last,
            texts(r@) == Seq::new(i as nat, |k: int| without_carriage_return(all[k])),
        decreases last - i,
    {
        let cs = chars_of(pieces[i].as_str());
        assert(cs@ == all[i as int]);
        let n = cs.len();
        let ghost head = texts(r@);
        if n > 0 && cs[n - 1] == '\r' {
            r.push(string_of(cs.as_slice(), 0, n - 1));
        } else {
            r.push(string_of(cs.as_slice(), 0, n));
        }
        proof {
            let line = without_carriage_return(all[i as int]);
            assert(all[i as int].subrange(0, n as int) =~= all[i as int]);
            assert(r@.last()@ =~= line);
            assert(texts(r@) =~= head.push(line));
            assert(head.push(line) =~= Seq::new(
                (i + 1) as nat,
                |k: int| without_carriage_return(all[k]),
            ));
        }
        i += 1;
    }
    if !pieces[last].as_str().is_empty() {
        let ghost head = texts(r@);
        r.push(pieces[last].clone());
        assert(texts(r@) =~= head.push(all.last()));
    }
    r
}

/// Whether every character of `s` is one of `0` to `9`.
pub open spec fn all_digits(s: Seq<char>) -> bool {
    forall|i: int| 0 <= i < s.len() ==> '0' <= #[trigger] s[i] <= '9'
}

/// The number that a sequence of decimal digits writes.
pub open spec fn digits_value(s: Seq<char>) -> nat
    decreases s.len(),
{
    if s.len() == 0 {
        0
    } else {
        10 * digits_value(s.drop_last()) + (s.last() as nat - '0' as nat) as nat
    }
}

/// The digits of a written number: what follows its `+`, if it has one.
pub open spec fn without_plus(s: Seq<char>) -> Seq<char> {
    if s.len() > 0 && s[0] == '+' {
        s.skip(1)
    } else {
        s
    }
}

/// The number below 2^32 that `s` writes in decimal: digits, at least one, with or without
/// a `+` before them and nothing else.
pub open spec fn u32_value(s: Seq<char>) -> Option<u32> {
    let digits = without_plus(s);
    if digits.len() > 0 && all_digits(digits) && digits_value(digits) <= u32::MAX {
        Some(digits_value(digits) as u32)
    } else {
        None
    }
}

proof fn digits_value_grows(s: Seq<char>, n: int)
    requires
        0 <= n <= s.len(),
    ensures
        digits_value(s.take(n)) <= digits_value(s),
    decreases s.len() - n,
{
    if n < s.len() {
        digits_value_grows(s, n + 1);
        assert(s.take(n + 1).drop_last() =~= s.take(n));
    } else {
        assert(s.take(n) =~= s);
    }
}

/// Reads a decimal number below 2^32.
pub fn parse_u32(s: &str) -> (r: Option<u32>)
    ensures
        r == u32_value(s@),
{
    let cs = chars_of(s);
    let start: usize = if cs.len() > 0 && cs[0] == '+' { 1 } else { 0 };
    let ghost digits = without_plus(s@);
    assert(digits =~= s@.skip(start as int));
    if cs.len() == start {
        return None;
    }
    let mut value: u64 = 0;
    let mut i: usize = start;
    assert(digits.take(0) =~= Seq::<char>::empty());
    while i < cs.len()
        invariant
            cs@ == s@,
            start <= i <= cs@.len(),
            start < cs@.len(),
            digits == without_plus(s@),
            digits == s@.skip(start as int),
            all_digits(digits.take(i - start)),
            value == digits_value(digits.take(i - start)),
            value <= u32::MAX,
        decreases cs@.len() - i,
    {
        let c = cs[i];
        proof {
            assert(digits[i - start] == c);
            assert(digits.take(i - start + 1).drop_last() =~= digits.take(i - start));
        }
        if c < '0' || '9' < c {
            return None;
        }
        value = 10 * value + (c as u64 - '0' as u64);
        proof {
            assert(value == digits_value(digits.take(i - start + 1)));
            assert(all_digits(digits.take(i - start + 1)));
        }
        if value > u32::MAX as u64 {
            proof {
                digits_value_grows(digits, i - start + 1);
            }
            return None;
        }
        i += 1;
    }
    assert(digits.take(digits.len() as int) =~= digits);
    Some(value as u32)
}

/// The decimal digit of a number below ten.
pub open spec fn digit_of(d: nat) -> char {
    ('0' as nat + d) as char
}

/// The decimal notation of `n`.
pub open spec fn decimal(n: nat) -> Seq<char>
    decreases n,
{
    if n < 10 {
        seq![digit_of(n)]
    } else {
        decimal(n / 10).push(digit_of(n % 10))
    }
}

/// Writes `n` in decimal.
pub fn decimal_of(n: u128) -> (r: String)
    ensures
        r@ == decimal(n as nat),
    decreases n,
{
    let d = (n % 10) as u8;
    let c = (48u8 + d) as char;
    let mut r = if n < 10 {
        String::new()
    } else {
        decimal_of(n / 10)
    };
    r.push(c);
    assert(r@ =~= decimal(n as nat));
    r
}

/// A written number reads back as itself.
pub proof fn decimal_reads_back(n: u32)
    ensures
        u32_value(decimal(n as nat)) == Some(n),
{
    decimal_is_digits(n as nat);
}

proof fn decimal_is_digits(n: nat)
    ensures
        decimal(n).len() > 0,
        all_digits(decimal(n)),
        digits_value(decimal(n)) == n,
    decreases n,
{
    let s = decimal(n);
    if n < 10 {
        assert(s.drop_last() =~= Seq::<char>::empty());
        assert(digits_value(s.drop_last()) == 0);
    } else {
        decimal_is_digits(n / 10);
        assert(s.drop_last() =~= decimal(n / 10));
    }
}

/// Whether `pattern` stands in `s` from position `at` on.
pub open spec fn occurs_at(s: Seq<char>, pattern: Seq<char>, at: int) -> bool {
    0 <= at && at + pattern.len() <= s.len() && s.subrange(at, at + pattern.len()) == pattern
}

/// Whether `pattern` stands anywhere in `s`.
pub open spec fn occurs_in(s: Seq<char>, pattern: Seq<char>) -> bool {
    exists|at: int| occurs_at(s, pattern, at)
}

/// Whether `pattern` stands in `s` from position `at` on.
fn matches_at(s: &Vec<char>, pattern: &Vec<char>, at: usize) -> (r: bool)
    requires
        at + pattern@.len() <= s@.len(),
    ensures
        r == occurs_at(s@, pattern@, at as int),
{
    let n = s.len();
    let mut i: usize = 0;
    while i < pattern.len()
        invariant
            n == s@.len(),
            at + pattern@.len() <= n,
            i <= pattern@.len(),
            forall|k: int| 0 <= k < i ==> s@[at + k] == pattern@[k],
        decreases pattern@.len() - i,
    {
        if s[at + i] != pattern[i] {
            assert(s@.subrange(at as int, at + pattern@.len())[i as int] != pattern@[i as int]);
            return false;
        }
        i += 1;
    }
    assert(s@.subrange(at as int, at + pattern@.len()) =~= pattern@);
    true
}

/// Whether `pattern` stands anywhere in `s`. The empty pattern stands in every text.
pub fn contains(s: &str, pattern: &str) -> (r: bool)
    ensures
        r == occurs_in(s@, pattern@),
{
    let cs = chars_of(s);
    let ps = chars_of(pattern);
    if ps.len() > cs.len() {
        return false;
    }
    let last: usize = cs.len() - ps.len();
    let mut at: usize = 0;
    while at < last
        invariant
            cs@ == s@,
            ps@ == pattern@,
            at <= last,
            last + ps@.len() == cs@.len(),
            forall|k: int| 0 <= k < at ==> !occurs_at(s@, pattern@, k),
        decreases last - at,
    {
        if matches_at(&cs, &ps, at) {
            return true;
        }
        at += 1;
    }
    matches_at(&cs, &ps, last)
}

/// Whether `a` comes before `b` or equals it, compared character by character.
pub open spec fn text_le(a: Seq<char>, b: Seq<char>) -> bool
    decreases a.len(),
{
    if a.len() == 0 {
        true
    } else if b.len() == 0 {
        false
    } else if a[0] == b[0] {
        text_le(a.skip(1), b.skip(1))
    } else {
        a[0] < b[0]
    }
}

/// Texts are totally ordered.
pub proof fn text_le_is_total(a: Seq<char>, b: Seq<char>)
    ensures
        text_le(a, b) || text_le(b, a),
        text_le(a, b) && text_le(b, a) ==> a == b,
    decreases a.len(),
{
    if a.len() > 0 && b.len() > 0 && a[0] == b[0] {
        text_le_is_total(a.skip(1), b.skip(1));
        if text_le(a, b) && text_le(b, a) {
            assert(a =~= seq![a[0]] + a.skip(1));
            assert(b =~= seq![b[0]] + b.skip(1));
        }
    } else if a.len() == 0 && b.len() == 0 {
        assert(a =~= b);
    }
}

/// The order of texts is transitive.
pub proof fn text_le_is_transitive(a: Seq<char>, b: Seq<char>, c: Seq<char>)
    requires
        text_le(a, b),
        text_le(b, c),
    ensures
        text_le(a, c),
    decreases a.len(),
{
    if a.len() > 0 && a[0] == b[0] && b[0] == c[0] {
        text_le_is_transitive(a.skip(1), b.skip(1), c.skip(1));
    }
}

/// Whether `a` comes before `b` or equals it.
pub fn str_le(a: &str, b: &str) -> (r: bool)
    ensures
        r == text_le(a@, b@),
{
    let x = chars_of(a);
    let y = chars_of(b);
    let mut i: usize = 0;
    assert(a@.skip(0) =~= a@);
    assert(b@.skip(0) =~= b@);
    while i < x.len()
        invariant
            x@ == a@,
            y@ == b@,
            i <= x@.len(),
            i <= y@.len(),
            text_le(a@, b@) == text_le(a@.skip(i as int), b@.skip(i as int)),
        decreases x@.len() - i,
    {
        if i >= y.len() {
            return false;
        }
        if x[i] != y[i] {
            return x[i] < y[i];
        }
        proof {
            assert(a@.skip(i as int).skip(1) =~= a@.skip(i + 1));
            assert(b@.skip(i as int).skip(1) =~= b@.skip(i + 1));
        }
        i += 1;
    }
    true
}

/// The characters with the `White_Space` property of Unicode.
pub open spec fn white_space(c: char) -> bool {
    let n = c as nat;
    ||| 0x09 <= n <= 0x0d
    ||| n == 0x20
    ||| n == 0x85
    ||| n == 0xa0
    ||| n == 0x1680
    ||| 0x2000 <= n <= 0x200a
    ||| n == 0x2028
    ||| n == 0x2029
    ||| n == 0x202f
    ||| n == 0x205f
    ||| n == 0x3000
}

/// Whether `c` is white space.
pub fn is_white_space(c: char) -> (r: bool)
    ensures
        r == white_space(c),
{
    let n: u32 = c as u32;
    (0x09 <= n && n <= 0x0d) || n == 0x20 || n == 0x85 || n == 0xa0 || n == 0x1680 || (0x2000 <= n
        && n <= 0x200a) || n == 0x2028 || n == 0x2029 || n == 0x202f || n == 0x205f || n == 0x3000
}

/// The text before the first `sep` and the text after it, if `sep` occurs.
pub open spec fn split_first(s: Seq<char>, sep: char) -> Option<(Seq<char>, Seq<char>)> {
    if s.contains(sep) {
        let at = s.index_of_first(sep)->0;
        Some((s.take(at), s.skip(at + 1)))
    } else {
        None
    }
}

/// A text without `sep`, then `sep`, then any text splits into the two.
pub proof fn split_first_at(head: Seq<char>, sep: char, tail: Seq<char>)
    requires
        !head.contains(sep),
    ensures
        split_first(head + seq![sep] + tail, sep) == Some((head, tail)),
{
    let s = head + seq![sep] + tail;
    let n = head.len() as int;
    assert(s[n] == sep);
    s.index_of_first_ensures(sep);
    let at = s.index_of_first(sep)->0;
    if at < n {
        assert(s[at] == head[at]);
    }
    assert(s.take(n) =~= head);
    assert(s.skip(n + 1) =~= tail);
}

/// Splits `s` at the first `sep`.
pub fn split_once(s: &str, sep: char) -> (r: Option<(&str, &str)>)
    ensures
        match r {
            Some((head, tail)) => split_first(s@, sep) == Some((head@, tail@)),
            None => split_first(s@, sep) is None,
        },
{
    let cs = chars_of(s);
    let mut i: usize = 0;
    while i < cs.len()
        invariant
            cs@ == s@,
            i <= cs@.len(),
            !s@.take(i as int).contains(sep),
        decreases cs@.len() - i,
    {
        if cs[i] == sep {
            let head = s.substring_char(0, i);
            let tail = s.substring_char(i + 1, cs.len());
            proof {
                assert(s@ =~= head@ + seq![sep] + tail@);
                assert(head@ =~= s@.take(i as int));
                split_first_at(head@, sep, tail@);
            }
            return Some((head, tail));
        }
        proof {
            let next = s@.take(i + 1);
            if next.contains(sep) {
                let k = choose|k: int| 0 <= k < next.len() && next[k] == sep;
                assert(s@.take(i as int)[k] == sep);
            }
        }
        i += 1;
    }
    assert(s@.take(i as int) =~= s@);
    None
}

/// What is joined in two parts is joined whole, with one more separator between the parts; one
/// piece alone is joined as it is, and no piece at all gives the empty text.
pub proof fn joined_parts_add_up(a: Seq<Seq<char>>, b: Seq<Seq<char>>, piece: Seq<char>, sep: Seq<char>)
    ensures
        a.len() > 0 && b.len() > 0 ==> join(a + b, sep) == join(a, sep) + sep + join(b, sep),
        join(seq![piece], sep) == piece,
        join(Seq::empty(), sep) == Seq::<char>::empty(),
    decreases b.len(),
{
    if a.len() > 0 && b.len() == 1 {
        assert((a + b).drop_last() =~= a);
    } else if a.len() > 0 && b.len() > 1 {
        joined_parts_add_up(a, b.drop_last(), piece, sep);
        assert((a + b).drop_last() =~= a + b.drop_last());
        assert((a + b).last() == b.last());
        assert(join(a + b, sep) =~= join(a, sep) + sep + join(b, sep));
    }
}

proof fn first_piece_splits_off(piece: Seq<char>, sep: char, rest: Seq<char>)
    requires
        !piece.contains(sep),
    ensures
        split(piece + seq![sep] + rest, sep) == seq![piece] + split(rest, sep),
{
    let pieces = split(rest, sep);
    let all = seq![piece] + pieces;
    split_then_join(rest, sep);
    joined_parts_add_up(seq![piece], pieces, piece, seq![sep]);
    assert forall|i: int| 0 <= i < all.len() implies !(#[trigger] all[i]).contains(sep) by {
        if i > 0 {
            assert(all[i] == pieces[i - 1]);
        }
    }
    join_then_split(all, sep);
    assert(join(all, seq![sep]) =~= piece + seq![sep] + rest);
}

/// A text is read line by line: a line feed ends a line, and takes a carriage return before it
/// along; a last line needs no end.
pub proof fn lines_are_read_one_by_one(line: Seq<char>, rest: Seq<char>)
    requires
        !line.contains('\n'),
    ensures
        lines(line + seq!['\r', '\n'] + rest) == seq![line] + lines(rest),
        line.len() == 0 || line.last() != '\r' ==> lines(line + seq!['\n'] + rest) == seq![line]
            + lines(rest),
        lines(line) == if line.len() == 0 {
            Seq::<Seq<char>>::empty()
        } else {
            seq![line]
        },
{
    let pieces = split(rest, '\n');
    split_then_join(rest, '\n');
    split_without_sep(line, '\n');
    first_piece_splits_off(line, '\n', rest);
    let ended = line.push('\r');
    if ended.contains('\n') {
        let k = choose|k: int| 0 <= k < ended.len() && ended[k] == '\n';
        assert(line[k] == '\n');
    }
    first_piece_splits_off(ended, '\n', rest);
    assert(ended + seq!['\n'] + rest =~= line + seq!['\r', '\n'] + rest);
    assert(ended.drop_last() =~= line);
    assert((seq![line] + pieces).last() == pieces.last());
    assert((seq![ended] + pieces).last() == pieces.last());
    assert(lines(line + seq!['\r', '\n'] + rest) =~= seq![line] + lines(rest));
    if line.len() == 0 || line.last() != '\r' {
        assert(lines(line + seq!['\n'] + rest) =~= seq![line] + lines(rest));
    }
    if line.len() == 0 {
        assert(lines(line) =~= Seq::<Seq<char>>::empty());
    } else {
        assert(lines(line) =~= seq![line]);
    }
}

/// One more digit makes a number ten times as large and adds the digit, as long as the result
/// fits; a digit alone is a number.
pub proof fn digits_extend_numbers(s: Seq<char>, c: char)
    requires
        s.len() > 0,
        forall|i: int| 0 <= i < s.len() ==> '0' <= #[trigger] s[i] <= '9',
        '0' <= c <= '9',
    ensures
        u32_value(s.push(c)) == match u32_value(s) {
            Some(n) => if 10 * n + (c as int - 48) <= 0xffff_ffff {
                Some((10 * n + (c as int - 48)) as u32)
            } else {
                None
            },
            None => None,
        },
        u32_value(seq![c]) == Some((c as int - 48) as u32),
{
    assert(s[0] != '+');
    assert(s.push(c)[0] != '+');
    assert(s.push(c).drop_last() =~= s);
    assert(all_digits(s.push(c)));
    assert(seq![c].drop_last() =~= Seq::<char>::empty());
    assert(digits_value(seq![c].drop_last()) == 0);
}

/// A plus sign in front changes nothing; without a digit, or with any other character, there is
/// no number.
pub proof fn other_texts_are_no_numbers(s: Seq<char>, i: int)
    ensures
        s.len() == 0 || s[0] != '+' ==> u32_value(seq!['+'] + s) == u32_value(s),
        0 <= i < s.len() && !('0' <= s[i] <= '9') && (i > 0 || s[i] != '+') ==> u32_value(s) is None,
        u32_value(Seq::empty()) is None,
{
    assert((seq!['+'] + s).skip(1) =~= s);
    if 0 <= i < s.len() && !('0' <= s[i] <= '9') && (i > 0 || s[i] != '+') {
        let digits = without_plus(s);
        if s[0] == '+' {
            assert(digits[i - 1] == s[i]);
        } else {
            assert(digits[i] == s[i]);
        }
    }
}

/// Decimal notation goes digit by digit and does not begin with a zero, but for zero itself.
pub proof fn decimal_goes_digit_by_digit(n: nat, d: nat)
    requires
        d < 10,
    ensures
        decimal(d) == seq![(48 + d) as char],
        n > 0 ==> decimal(10 * n + d) == decimal(n).push((48 + d) as char),
        n > 0 ==> decimal(n)[0] != '0',
        decimal(n).len() > 0,
    decreases n,
{
    if n > 0 {
        assert((10 * n + d) / 10 == n);
        assert((10 * n + d) % 10 == d);
    }
    decimal_is_digits(n);
    if n >= 10 {
        decimal_goes_digit_by_digit(n / 10, d);
        assert(decimal(n)[0] == decimal(n / 10)[0]);
    }
}

/// A pattern occurs in a text exactly if the text is something, the pattern, and something.
pub proof fn occurrences_stand_between_texts(a: Seq<char>, pattern: Seq<char>, b: Seq<char>, s: Seq<char>)
    ensures
        occurs_in(a + pattern + b, pattern),
        occurs_in(s, pattern) ==> exists|x: Seq<char>, y: Seq<char>| s == #[trigger] (x + pattern + y),
{
    let all = a + pattern + b;
    let n = a.len() as int;
    assert(all.subrange(n, n + pattern.len()) =~= pattern);
    assert(occurs_at(all, pattern, n));
    if occurs_in(s, pattern) {
        let at = choose|at: int| occurs_at(s, pattern, at);
        let x = s.take(at);
        let y = s.skip(at + pattern.len());
        assert(s =~= x + s.subrange(at, at + pattern.len()) + y);
        assert(s == x + pattern + y);
    }
}

/// The first characters in which two texts differ decide which comes first, and a text comes
/// before its continuations.
pub proof fn first_difference_decides(common: Seq<char>, x: Seq<char>, y: Seq<char>)
    ensures
        text_le(common, common + x),
        x.len() > 0 ==> !text_le(common + x, common),
        x.len() > 0 && y.len() > 0 && x[0] < y[0] ==> text_le(common + x, common + y) && !text_le(
            common + y,
            common + x,
        ),
    decreases common.len(),
{
    if common.len() == 0 {
        assert(common + x =~= x);
        assert(common + y =~= y);
    } else {
        let rest = common.skip(1);
        first_difference_decides(rest, x, y);
        assert((common + x).skip(1) =~= rest + x);
        assert((common + y).skip(1) =~= rest + y);
    }
}

/// A text without the separator does not split.
pub proof fn split_first_needs_the_separator(s: Seq<char>, sep: char)
    ensures
        split_first(s, sep) is None <==> !s.contains(sep),
{
}

} // verus!
