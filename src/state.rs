//! The set of games already announced, and the text record it is kept in:
//! one identity hash per line, in decimal.

use crate::game::{identity_hash, Pgn};
use crate::text::chars_of;
use std::collections::HashSet;
use vstd::prelude::*;

verus! {

/// Why a record could not be read.
#[derive(Debug, Clone, Copy, PartialEq, Eq, Structural)]
pub enum StateError {
    /// A line of the record is not a 64-bit unsigned decimal number.
    MalformedLine,
}

pub open spec fn is_digit(c: char) -> bool {
    '0' <= c <= '9'
}

pub open spec fn all_digits(s: Seq<char>) -> bool {
    forall|i: int| 0 <= i < s.len() ==> is_digit(#[trigger] s[i])
}

pub open spec fn digit_value(c: char) -> nat {
    (c as nat - '0' as nat) as nat
}

/// The number that the decimal digits `s` write.
pub open spec fn digits_value(s: Seq<char>) -> nat
    decreases s.len(),
{
    if s.len() == 0 {
        0
    } else {
        digits_value(s.drop_last()) * 10 + digit_value(s.last())
    }
}

/// What `u64::from_str` makes of `line`: an optional `+`, then one or more
/// decimal digits whose value fits in 64 bits.
pub open spec fn parse_u64(line: Seq<char>) -> Option<u64> {
    let digits = if line.len() > 0 && line[0] == '+' {
        line.drop_first()
    } else {
        line
    };
    if digits.len() > 0 && all_digits(digits) && digits_value(digits) <= u64::MAX {
        Some(digits_value(digits) as u64)
    } else {
        None
    }
}

/// The lines of `s` that ended with a line feed, and what follows the last
/// line feed.
pub open spec fn scan_lines(s: Seq<char>) -> (Seq<Seq<char>>, Seq<char>)
    decreases s.len(),
{
    if s.len() == 0 {
        (Seq::empty(), Seq::empty())
    } else {
        let (done, current) = scan_lines(s.drop_last());
        if s.last() == '\n' {
            (done.push(current), Seq::empty())
        } else {
            (done, current.push(s.last()))
        }
    }
}

/// A line without the carriage return that ends it, if any.
pub open spec fn strip_cr(line: Seq<char>) -> Seq<char> {
    if line.len() > 0 && line.last() == '\r' {
        line.drop_last()
    } else {
        line
    }
}

/// The lines of `s`, as `str::lines` gives them: split at line feeds, a
/// carriage return before a line feed dropped, and no empty last line.
pub open spec fn record_lines(s: Seq<char>) -> Seq<Seq<char>> {
    let (done, current) = scan_lines(s);
    let ended = done.map_values(|l: Seq<char>| strip_cr(l));
    if current.len() > 0 {
        ended.push(current)
    } else {
        ended
    }
}

/// Every line of the record is a number.
pub open spec fn record_is_valid(s: Seq<char>) -> bool {
    forall|i: int| 0 <= i < record_lines(s).len() ==> (#[trigger] parse_u64(record_lines(s)[i])) is Some
}

/// The numbers that the record holds.
pub open spec fn recorded(s: Seq<char>) -> Set<u64> {
    Set::new(|h: u64| exists|i: int| 0 <= i < record_lines(s).len() && parse_u64(#[trigger] record_lines(s)[i]) == Some(h))
}

pub open spec fn digit_char(d: nat) -> char {
    ((d + '0' as nat) as u32) as char
}

/// The decimal digits of `n`, without leading zeros.
pub open spec fn decimal(n: nat) -> Seq<char>
    decreases n,
{
    if n < 10 {
        seq![digit_char(n)]
    } else {
        decimal(n / 10).push(digit_char(n % 10))
    }
}

/// The line that records `h`.
pub open spec fn record_line(h: u64) -> Seq<char> {
    decimal(h as nat).push('\n')
}

proof fn lemma_digits_value_grows(s: Seq<char>, k: int)
    requires
        0 <= k <= s.len(),
    ensures
        digits_value(s.take(k)) <= digits_value(s),
    decreases s.len() - k,
{
    if k < s.len() {
        assert(s.drop_last().take(k) == s.take(k));
        lemma_digits_value_grows(s.drop_last(), k);
    } else {
        assert(s.take(k) == s);
    }
}

proof fn lemma_decimal(n: nat)
    ensures
        decimal(n).len() > 0,
        all_digits(decimal(n)),
        digits_value(decimal(n)) == n,
    decreases n,
{
    let k = n % 10;
    assert(digit_value(digit_char(k)) == k);
    assert(is_digit(digit_char(k)));
    if n < 10 {
        assert(decimal(n).drop_last() =~= Seq::<char>::empty());
        assert(digits_value(decimal(n)) == digits_value(Seq::<char>::empty()) * 10 + digit_value(digit_char(n)));
    } else {
        lemma_decimal(n / 10);
        let d = decimal(n);
        assert(d.drop_last() == decimal(n / 10));
        assert(d.last() == digit_char(k));
        assert(n == (n / 10) * 10 + k);
        assert(digits_value(d) == digits_value(decimal(n / 10)) * 10 + k);
        assert forall|i: int| 0 <= i < d.len() implies is_digit(#[trigger] d[i]) by {
            if i < d.len() - 1 {
                assert(d[i] == decimal(n / 10)[i]);
            }
        }
    }
}

/// Writes the decimal digits of `n` after `s`.
fn push_decimal(s: &mut String, n: u64)
    ensures
        final(s)@ == old(s)@ + decimal(n as nat),
    decreases n,
{
    if n >= 10 {
        push_decimal(s, n / 10);
    }
    let d = (n % 10) as u8;
    let c = (d + 48) as char;
    assert(c == digit_char((n % 10) as nat));
    s.push(c);
    proof {
        if n >= 10 {
            assert(old(s)@ + decimal(n as nat) =~= (old(s)@ + decimal((n / 10) as nat)).push(c));
        } else {
            assert(old(s)@ + decimal(n as nat) =~= old(s)@.push(c));
        }
    }
}

/// The line that records `h`: its decimal digits and a line feed.
pub fn record_line_of(h: u64) -> (r: String)
    ensures
        r@ == record_line(h),
{
    let mut r = String::new();
    push_decimal(&mut r, h);
    r.push('\n');
    assert(r@ =~= record_line(h));
    r
}

/// What `u64::from_str` makes of the characters `v[from..to]`.
fn parse_u64_range(v: &Vec<char>, from: usize, to: usize) -> (r: Option<u64>)
    requires
        from <= to <= v@.len(),
    ensures
        r == parse_u64(v@.subrange(from as int, to as int)),
{
    let ghost line = v@.subrange(from as int, to as int);
    let mut start = from;
    if start < to && v[start] == '+' {
        start = start + 1;
    }
    let ghost digits = v@.subrange(start as int, to as int);
    assert(digits == if line.len() > 0 && line[0] == '+' {
        line.drop_first()
    } else {
        line
    });
    if start == to {
        return None;
    }
    let mut value: u64 = 0;
    let mut i = start;
    while i < to
        invariant
            from <= start <= i <= to <= v@.len(),
            digits == v@.subrange(start as int, to as int),
            line == v@.subrange(from as int, to as int),
            digits == if line.len() > 0 && line[0] == '+' {
                line.drop_first()
            } else {
                line
            },
            all_digits(v@.subrange(start as int, i as int)),
            value as nat == digits_value(v@.subrange(start as int, i as int)),
        decreases to - i,
    {
        let c = v[i];
        let ghost prefix = v@.subrange(start as int, i + 1);
        assert(prefix.drop_last() == v@.subrange(start as int, i as int));
        assert(digits[i - start] == c);
        assert(prefix.last() == c);
        if c < '0' || c > '9' {
            assert(!is_digit(digits[i - start]));
            assert(!all_digits(digits));
            return None;
        }
        let d = (c as u32 - 48) as u64;
        assert(d as nat == digit_value(c));
        if value > (u64::MAX - d) / 10 {
            assert(value * 10 + d > u64::MAX) by (nonlinear_arith)
                requires
                    value > (u64::MAX - d) / 10,
                    d <= 9,
            ;
            proof {
                assert(digits_value(prefix) == value * 10 + d);
                assert(digits.take(i + 1 - start) == prefix);
                lemma_digits_value_grows(digits, i + 1 - start);
                assert(digits_value(digits) > u64::MAX);
            }
            return None;
        }
        assert(value * 10 + d <= u64::MAX) by (nonlinear_arith)
            requires
                value <= (u64::MAX - d) / 10,
                d <= 9,
        ;
        value = value * 10 + d;
        i = i + 1;
    }
    Some(value)
}

/// The identity hashes of the games already announced.
pub struct SeenGames {
    state: HashSet<u64>,
}

/// The lines that a prefix of `s` ended are the first lines that `s` ends.
proof fn lemma_scan_prefix(s: Seq<char>, j: int)
    requires
        0 <= j <= s.len(),
    ensures
        scan_lines(s.take(j)).0.len() <= scan_lines(s).0.len(),
        scan_lines(s).0.take(scan_lines(s.take(j)).0.len() as int) == scan_lines(s.take(j)).0,
    decreases s.len() - j,
{
    if j < s.len() {
        assert(s.drop_last().take(j) == s.take(j));
        lemma_scan_prefix(s.drop_last(), j);
        let d = scan_lines(s.drop_last()).0;
        let n = scan_lines(s.take(j)).0.len() as int;
        assert(scan_lines(s).0.take(n) =~= d.take(n));
    } else {
        assert(s.take(j) == s);
        assert(scan_lines(s).0.take(scan_lines(s).0.len() as int) == scan_lines(s).0);
    }
}

/// A line ended by the line feed at `i` is a line of the record.
proof fn lemma_record_has_line(s: Seq<char>, i: int, done: Seq<Seq<char>>, line: Seq<char>)
    requires
        0 <= i < s.len(),
        s[i] == '\n',
        scan_lines(s.take(i)) == (done, line),
    ensures
        done.len() < record_lines(s).len(),
        record_lines(s)[done.len() as int] == strip_cr(line),
{
    assert(s.take(i + 1).drop_last() == s.take(i));
    assert(scan_lines(s.take(i + 1)).0 == done.push(line));
    lemma_scan_prefix(s, i + 1);
    let all = scan_lines(s).0;
    assert(all.take(done.len() + 1 as int) == done.push(line));
    assert(all[done.len() as int] == done.push(line)[done.len() as int]);
}

impl View for SeenGames {
    type V = Set<u64>;

    closed spec fn view(&self) -> Set<u64> {
        self.state@
    }
}

impl SeenGames {
    /// Reads a record: every line must be a number, and the set holds the
    /// numbers of all lines.
    pub fn load(contents: &str) -> (r: Result<SeenGames, StateError>)
        ensures
            r is Ok <==> record_is_valid(contents@),
            r is Ok ==> r->Ok_0@ == recorded(contents@),
            r is Err ==> r == Err::<SeenGames, StateError>(StateError::MalformedLine),
    {
        let v = chars_of(contents);
        let mut state: HashSet<u64> = HashSet::new();
        let ghost mut done: Seq<Seq<char>> = Seq::empty();
        let mut start: usize = 0;
        let mut i: usize = 0;
        while i < v.len()
            invariant
                v@ == contents@,
                start <= i <= v@.len(),
                scan_lines(v@.take(i as int)) == (done, v@.subrange(start as int, i as int)),
                forall|k: int| 0 <= k < done.len() ==> (#[trigger] parse_u64(strip_cr(done[k]))) is Some,
                state@ == Set::new(|h: u64| exists|k: int| 0 <= k < done.len() && parse_u64(strip_cr(#[trigger] done[k])) == Some(h)),
            decreases v@.len() - i,
        {
            assert(v@.take(i + 1).drop_last() == v@.take(i as int));
            if v[i] == '\n' {
                let mut end = i;
                if end > start && v[end - 1] == '\r' {
                    end = end - 1;
                }
                let ghost line = v@.subrange(start as int, i as int);
                assert(v@.subrange(start as int, end as int) == strip_cr(line));
                match parse_u64_range(&v, start, end) {
                    Some(h) => {
                        state.insert(h);
                        proof {
                            let old_done = done;
                            done = done.push(line);
                            assert forall|k: int| 0 <= k < done.len() implies (#[trigger] parse_u64(strip_cr(done[k]))) is Some by {
                                if k < old_done.len() {
                                    assert(done[k] == old_done[k]);
                                }
                            }
                            assert(state@ =~= Set::new(|x: u64| exists|k: int| 0 <= k < done.len() && parse_u64(strip_cr(#[trigger] done[k])) == Some(x))) by {
                                assert forall|x: u64| state@.contains(x) implies exists|k: int| 0 <= k < done.len() && parse_u64(strip_cr(#[trigger] done[k])) == Some(x) by {
                                    if x == h {
                                        assert(done[old_done.len() as int] == line);
                                    } else {
                                        let k = choose|k: int| 0 <= k < old_done.len() && parse_u64(strip_cr(#[trigger] old_done[k])) == Some(x);
                                        assert(done[k] == old_done[k]);
                                    }
                                }
                                assert forall|x: u64| (exists|k: int| 0 <= k < done.len() && parse_u64(strip_cr(#[trigger] done[k])) == Some(x)) implies state@.contains(x) by {
                                    let k = choose|k: int| 0 <= k < done.len() && parse_u64(strip_cr(#[trigger] done[k])) == Some(x);
                                    if k < old_done.len() {
                                        assert(done[k] == old_done[k]);
                                    }
                                }
                            }
                        }
                    },
                    None => {
                        proof {
                            lemma_record_has_line(v@, i as int, done, line);
                        }
                        return Err(StateError::MalformedLine);
                    },
                }
                start = i + 1;
                assert(v@.subrange(start as int, i + 1) =~= Seq::<char>::empty());
            } else {
                assert(v@.subrange(start as int, i + 1) =~= v@.subrange(start as int, i as int).push(v@[i as int]));
            }
            i = i + 1;
        }
        assert(v@.take(v@.len() as int) == v@);
        let ghost lines = record_lines(contents@);
        let ghost ended = done.map_values(|l: Seq<char>| strip_cr(l));
        if start < v.len() {
            match parse_u64_range(&v, start, v.len()) {
                Some(h) => {
                    state.insert(h);
                    proof {
                        let last = v@.subrange(start as int, v@.len() as int);
                        assert(lines == ended.push(last));
                        assert forall|k: int| 0 <= k < lines.len() implies (#[trigger] parse_u64(lines[k])) is Some by {
                            if k < done.len() {
                                assert(lines[k] == strip_cr(done[k]));
                            }
                        }
                        assert(state@ =~= recorded(contents@)) by {
                            assert forall|x: u64| state@.contains(x) implies recorded(contents@).contains(x) by {
                                if x == h {
                                    assert(lines[done.len() as int] == last);
                                } else {
                                    let k = choose|k: int| 0 <= k < done.len() && parse_u64(strip_cr(#[trigger] done[k])) == Some(x);
                                    assert(lines[k] == strip_cr(done[k]));
                                }
                            }
                            assert forall|x: u64| recorded(contents@).contains(x) implies state@.contains(x) by {
                                let k = choose|k: int| 0 <= k < lines.len() && parse_u64(#[trigger] lines[k]) == Some(x);
                                if k < done.len() {
                                    assert(lines[k] == strip_cr(done[k]));
                                }
                            }
                        }
                    }
                },
                None => {
                    assert(lines == ended.push(v@.subrange(start as int, v@.len() as int)));
                    assert(lines[done.len() as int] == v@.subrange(start as int, v@.len() as int));
                    return Err(StateError::MalformedLine);
                },
            }
        } else {
            proof {
                assert(v@.subrange(start as int, i as int).len() == 0);
                assert(lines == ended);
                assert forall|k: int| 0 <= k < lines.len() implies (#[trigger] parse_u64(lines[k])) is Some by {
                    assert(lines[k] == strip_cr(done[k]));
                }
                assert(state@ =~= recorded(contents@)) by {
                    assert forall|x: u64| state@.contains(x) implies recorded(contents@).contains(x) by {
                        let k = choose|k: int| 0 <= k < done.len() && parse_u64(strip_cr(#[trigger] done[k])) == Some(x);
                        assert(lines[k] == strip_cr(done[k]));
                    }
                    assert forall|x: u64| recorded(contents@).contains(x) implies state@.contains(x) by {
                        let k = choose|k: int| 0 <= k < lines.len() && parse_u64(#[trigger] lines[k]) == Some(x);
                        assert(lines[k] == strip_cr(done[k]));
                    }
                }
            }
        }
        Ok(SeenGames { state })
    }

    /// Whether the game's identity hash is in the set.
    pub fn contains(&self, game: &Pgn) -> (r: bool)
        ensures
            r == self@.contains(identity_hash(*game)),
    {
        self.state.contains(&game.as_hash())
    }

    /// Adds the game's identity hash to the set, and gives the line to append
    /// to the record for it.
    pub fn add(&mut self, game: &Pgn) -> (r: String)
        ensures
            final(self)@ == old(self)@.insert(identity_hash(*game)),
            r@ == record_line(identity_hash(*game)),
    {
        let h = game.as_hash();
        self.state.insert(h);
        record_line_of(h)
    }
}

proof fn lemma_scan_append(s: Seq<char>, t: Seq<char>)
    requires
        scan_lines(s).1.len() == 0,
    ensures
        scan_lines(s + t) == (scan_lines(s).0 + scan_lines(t).0, scan_lines(t).1),
    decreases t.len(),
{
    if t.len() == 0 {
        assert(s + t == s);
        assert(scan_lines(s).0 + scan_lines(t).0 == scan_lines(s).0);
        assert(scan_lines(s).1 =~= scan_lines(t).1);
    } else {
        assert((s + t).drop_last() == s + t.drop_last());
        assert((s + t).last() == t.last());
        lemma_scan_append(s, t.drop_last());
        let (d, c) = scan_lines(t.drop_last());
        if t.last() == '\n' {
            assert(scan_lines(s).0 + d.push(c) == (scan_lines(s).0 + d).push(c));
        }
    }
}

proof fn lemma_scan_one_line(t: Seq<char>)
    requires
        forall|i: int| 0 <= i < t.len() ==> #[trigger] t[i] != '\n',
    ensures
        scan_lines(t) == (Seq::<Seq<char>>::empty(), t),
    decreases t.len(),
{
    if t.len() > 0 {
        assert(t[t.len() - 1] != '\n');
        lemma_scan_one_line(t.drop_last());
        assert(t.drop_last().push(t.last()) == t);
    }
}

/// A record as this library writes it (empty, or ending with a line feed),
/// with the line for `h` appended, reads back as the numbers it held and `h`.
pub proof fn lemma_record_round_trip(s: Seq<char>, h: u64)
    requires
        record_is_valid(s),
        s.len() == 0 || s.last() == '\n',
    ensures
        record_is_valid(s + record_line(h)),
        recorded(s + record_line(h)) == recorded(s).insert(h),
{
    let d = decimal(h as nat);
    let t = record_line(h);
    lemma_decimal(h as nat);
    assert forall|i: int| 0 <= i < d.len() implies #[trigger] d[i] != '\n' by {
        assert(is_digit(d[i]));
    }
    lemma_scan_one_line(d);
    assert(t.drop_last() == d);
    assert(scan_lines(t) == (seq![d], Seq::<char>::empty()));
    if s.len() > 0 {
        assert(s.drop_last().push(s.last()) == s);
    }
    assert(scan_lines(s).1.len() == 0);
    lemma_scan_append(s, t);
    let before = record_lines(s);
    let after = record_lines(s + t);
    let done = scan_lines(s).0;
    assert(before == done.map_values(|l: Seq<char>| strip_cr(l)));
    assert(d.last() != '\r') by {
        assert(is_digit(d[d.len() - 1]));
    }
    assert(strip_cr(d) == d);
    assert(after =~= before.push(d));
    assert(d[0] != '+') by {
        assert(is_digit(d[0]));
    }
    assert(parse_u64(d) == Some(h));
    assert forall|i: int| 0 <= i < after.len() implies (#[trigger] parse_u64(after[i])) is Some by {
        if i < before.len() {
            assert(after[i] == before[i]);
        }
    }
    assert(recorded(s + t) =~= recorded(s).insert(h)) by {
        assert forall|x: u64| recorded(s + t).contains(x) implies recorded(s).insert(h).contains(x) by {
            let i = choose|i: int| 0 <= i < after.len() && parse_u64(#[trigger] after[i]) == Some(x);
            if i < before.len() {
                assert(after[i] == before[i]);
            }
        }
        assert forall|x: u64| recorded(s).insert(h).contains(x) implies recorded(s + t).contains(x) by {
            if x == h {
                assert(after[before.len() as int] == d);
            } else {
                let i = choose|i: int| 0 <= i < before.len() && parse_u64(#[trigger] before[i]) == Some(x);
                assert(after[i] == before[i]);
            }
        }
    }
}

/// A game added to the set, with its line appended to a record that this
/// library wrote, is seen by the set that the record reads back as.
pub proof fn lemma_added_game_is_seen(s: Seq<char>, game: Pgn)
    requires
        record_is_valid(s),
        s.len() == 0 || s.last() == '\n',
    ensures
        record_is_valid(s + record_line(identity_hash(game))),
        recorded(s + record_line(identity_hash(game))).contains(identity_hash(game)),
{
    lemma_record_round_trip(s, identity_hash(game));
}

} // verus!
