//! Parser: turns the kernel's textual counter dump into a structured,
//! per-core sample. The relevant section is a contiguous run of lines
//! beginning with `cpu`: first the aggregate line (`cpu` followed by
//! whitespace), then one line per core (`cpu<N>` with the id digits
//! attached), each carrying ten whitespace-separated decimal counters.

use vstd::prelude::*;

use crate::model::{CoreInfo, Stat, stat_wf, strictly_sorted_by_id};

verus! {

/// Why a parse was rejected. Every failure is terminal for that parse
/// call: no partial sample is ever returned.
#[derive(Debug, Clone, Copy, PartialEq, Eq, Structural)]
pub enum ParseError {
    /// A line of the counter section had a wrong token count, a
    /// non-numeric or oversized token, or no id digits after `cpu`.
    MalformedLine,
    /// The first line of the counter section is not the aggregate line.
    NoAggregateLine,
    /// Two core lines carry the same id.
    DuplicateCoreId,
    /// No counter lines at all, or no per-core line after the aggregate.
    Empty,
}

pub const SPACE: u8 = 32;

pub const TAB: u8 = 9;

pub const NEWLINE: u8 = 10;

pub const DIGIT_ZERO: u8 = 48;

pub const DIGIT_NINE: u8 = 57;

pub const LOWER_C: u8 = 99;

pub const LOWER_P: u8 = 112;

pub const LOWER_U: u8 = 117;

pub open spec fn is_space(b: u8) -> bool {
    b == SPACE || b == TAB
}

pub open spec fn is_digit(b: u8) -> bool {
    DIGIT_ZERO <= b && b <= DIGIT_NINE
}

/// The input split at newline bytes, none of them kept. `cur` carries the
/// bytes of the line under construction.
pub open spec fn split_lines_from(s: Seq<u8>, cur: Seq<u8>) -> Seq<Seq<u8>>
    decreases s.len(),
{
    if s.len() == 0 {
        seq![cur]
    } else if s[0] == NEWLINE {
        seq![cur] + split_lines_from(s.skip(1), Seq::empty())
    } else {
        split_lines_from(s.skip(1), cur.push(s[0]))
    }
}

pub open spec fn split_lines(s: Seq<u8>) -> Seq<Seq<u8>> {
    split_lines_from(s, Seq::empty())
}

/// The line split at whitespace runs into its non-empty tokens. `cur`
/// carries the token under construction.
pub open spec fn tokens_from(s: Seq<u8>, cur: Seq<u8>) -> Seq<Seq<u8>>
    decreases s.len(),
{
    if s.len() == 0 {
        if cur.len() == 0 {
            Seq::empty()
        } else {
            seq![cur]
        }
    } else if is_space(s[0]) {
        if cur.len() == 0 {
            tokens_from(s.skip(1), cur)
        } else {
            seq![cur] + tokens_from(s.skip(1), Seq::empty())
        }
    } else {
        tokens_from(s.skip(1), cur.push(s[0]))
    }
}

pub open spec fn tokens(s: Seq<u8>) -> Seq<Seq<u8>> {
    tokens_from(s, Seq::empty())
}

/// The token is one or more decimal digits.
pub open spec fn all_digits(t: Seq<u8>) -> bool {
    t.len() > 0 && forall|i: int| 0 <= i < t.len() ==> is_digit(#[trigger] t[i])
}

/// The decimal value of a digit string.
pub open spec fn dec_val(t: Seq<u8>) -> nat
    decreases t.len(),
{
    if t.len() == 0 {
        0
    } else {
        dec_val(t.drop_last()) * 10 + (t.last() - DIGIT_ZERO) as nat
    }
}

/// What a counter token denotes: its value, if it is all digits and fits
/// the counter width.
pub open spec fn token_u64(t: Seq<u8>) -> Option<u64> {
    if all_digits(t) && dec_val(t) <= u64::MAX {
        Some(dec_val(t) as u64)
    } else {
        None
    }
}

/// Longer digit prefixes denote values at least as large.
proof fn lemma_dec_val_take_monotonic(t: Seq<u8>, i: int, j: int)
    requires
        0 <= i <= j <= t.len(),
    ensures
        dec_val(t.take(i)) <= dec_val(t.take(j)),
    decreases j - i,
{
    if i < j {
        lemma_dec_val_take_monotonic(t, i, j - 1);
        assert(t.take(j).drop_last() =~= t.take(j - 1));
        assert(dec_val(t.take(j)) == dec_val(t.take(j - 1)) * 10 + (t.take(j).last()
            - DIGIT_ZERO) as nat);
    }
}

/// Splits the bytes of `line` from position `from` onward into tokens.
fn tokenize_from(line: &Vec<u8>, from: usize) -> (r: Vec<Vec<u8>>)
    requires
        from <= line@.len(),
    ensures
        r@.map_values(|t: Vec<u8>| t@) == tokens(line@.skip(from as int)),
{
    let ghost whole = line@.skip(from as int);
    let n = line.len();
    let mut out: Vec<Vec<u8>> = Vec::new();
    let mut cur: Vec<u8> = Vec::new();
    let mut i: usize = from;
    while i < n
        invariant
            from <= i <= n,
            n == line@.len(),
            whole == line@.skip(from as int),
            tokens_from(whole, Seq::empty()) == out@.map_values(|t: Vec<u8>| t@) + tokens_from(
                line@.skip(i as int),
                cur@,
            ),
        decreases n - i,
    {
        let b = line[i];
        proof {
            assert(line@.skip(i as int)[0] == b);
            assert(line@.skip(i as int).skip(1) =~= line@.skip(i + 1));
        }
        if b == SPACE || b == TAB {
            if cur.len() > 0 {
                let ghost old_out = out@;
                out.push(cur);
                cur = Vec::new();
                proof {
                    assert(out@.map_values(|t: Vec<u8>| t@) =~= old_out.map_values(
                        |t: Vec<u8>| t@,
                    ).push(out@.last()@));
                    assert(old_out.map_values(|t: Vec<u8>| t@) + (seq![out@.last()@]
                        + tokens_from(line@.skip(i + 1), Seq::empty())) =~= out@.map_values(
                        |t: Vec<u8>| t@,
                    ) + tokens_from(line@.skip(i + 1), Seq::empty()));
                }
            }
        } else {
            cur.push(b);
        }
        i = i + 1;
    }
    proof {
        assert(line@.skip(n as int) =~= Seq::<u8>::empty());
    }
    if cur.len() > 0 {
        let ghost old_out = out@;
        out.push(cur);
        proof {
            assert(out@.map_values(|t: Vec<u8>| t@) =~= old_out.map_values(|t: Vec<u8>| t@).push(
                out@.last()@,
            ));
            assert(old_out.map_values(|t: Vec<u8>| t@) + seq![out@.last()@] =~= out@.map_values(
                |t: Vec<u8>| t@,
            ));
        }
    } else {
        proof {
            assert(out@.map_values(|t: Vec<u8>| t@) + Seq::<Seq<u8>>::empty() =~= out@.map_values(
                |t: Vec<u8>| t@,
            ));
        }
    }
    out
}

/// The line opens with the letters `cpu`.
pub open spec fn starts_with_cpu(l: Seq<u8>) -> bool {
    l.len() >= 3 && l[0] == LOWER_C && l[1] == LOWER_P && l[2] == LOWER_U
}

/// The aggregate line: `cpu` followed directly by whitespace. It sums all
/// cores and yields no record of its own.
pub open spec fn is_aggregate_line(l: Seq<u8>) -> bool {
    starts_with_cpu(l) && l.len() >= 4 && is_space(l[3])
}

/// Exactly ten counter tokens, each a decimal value of counter width.
pub open spec fn counter_block_ok(rest: Seq<u8>) -> bool {
    let ts = tokens(rest);
    ts.len() == 10 && forall|j: int| 0 <= j < 10 ==> token_u64(#[trigger] ts[j]) is Some
}

/// What a per-core line denotes: id digits attached to `cpu`, then the ten
/// counters `user, nice, system, idle, iowait, irq, softirq, steal, guest,
/// guest_nice` in fixed order; or nothing, if the line is malformed.
pub open spec fn core_of_line(l: Seq<u8>) -> Option<CoreInfo> {
    let ts = tokens(l.skip(3));
    if starts_with_cpu(l) && l.len() >= 4 && is_digit(l[3]) && ts.len() == 11 && (forall|j: int|
        0 <= j < 11 ==> token_u64(#[trigger] ts[j]) is Some) {
        Some(
            CoreInfo {
                id: token_u64(ts[0])->0,
                user: token_u64(ts[1])->0,
                nice: token_u64(ts[2])->0,
                system: token_u64(ts[3])->0,
                idle: token_u64(ts[4])->0,
                iowait: token_u64(ts[5])->0,
                irq: token_u64(ts[6])->0,
                softirq: token_u64(ts[7])->0,
                steal: token_u64(ts[8])->0,
                guest: token_u64(ts[9])->0,
                guest_nice: token_u64(ts[10])->0,
            },
        )
    } else {
        None
    }
}

/// The counter section: the contiguous leading run of `cpu`-prefixed lines.
pub open spec fn cpu_section(ls: Seq<Seq<u8>>) -> Seq<Seq<u8>>
    decreases ls.len(),
{
    if ls.len() == 0 || !starts_with_cpu(ls[0]) {
        Seq::empty()
    } else {
        seq![ls[0]] + cpu_section(ls.skip(1))
    }
}

/// Inserts a record into an id-ordered record sequence, or yields nothing
/// if its id is already present.
pub open spec fn insert_unique(s: Seq<CoreInfo>, c: CoreInfo) -> Option<Seq<CoreInfo>>
    decreases s.len(),
{
    if s.len() == 0 {
        Some(seq![c])
    } else if s[0].id < c.id {
        match insert_unique(s.skip(1), c) {
            Some(t) => Some(seq![s[0]] + t),
            None => None,
        }
    } else if s[0].id == c.id {
        None
    } else {
        Some(seq![c] + s)
    }
}

/// Reads the per-core lines in order, gathering records ascending by id.
/// The first malformed line, or the first id already gathered, rejects the
/// whole parse.
pub open spec fn parse_core_lines(ls: Seq<Seq<u8>>, acc: Seq<CoreInfo>) -> Result<
    Seq<CoreInfo>,
    ParseError,
>
    decreases ls.len(),
{
    if ls.len() == 0 {
        Ok(acc)
    } else {
        match core_of_line(ls[0]) {
            None => Err(ParseError::MalformedLine),
            Some(c) => match insert_unique(acc, c) {
                None => Err(ParseError::DuplicateCoreId),
                Some(acc2) => parse_core_lines(ls.skip(1), acc2),
            },
        }
    }
}

/// What a parse of the whole dump denotes: the per-core records in
/// ascending id order, or the error that rejects it.
pub open spec fn spec_parse(data: Seq<u8>) -> Result<Seq<CoreInfo>, ParseError> {
    let sec = cpu_section(split_lines(data));
    if sec.len() == 0 {
        Err(ParseError::Empty)
    } else if !is_aggregate_line(sec[0]) {
        Err(ParseError::NoAggregateLine)
    } else if !counter_block_ok(sec[0].skip(3)) {
        Err(ParseError::MalformedLine)
    } else if sec.len() == 1 {
        Err(ParseError::Empty)
    } else {
        parse_core_lines(sec.skip(1), Seq::empty())
    }
}

/// The counter section is the longest `cpu`-prefixed prefix of the lines.
proof fn lemma_cpu_section_take(ls: Seq<Seq<u8>>, k: int)
    requires
        0 <= k <= ls.len(),
        forall|j: int| 0 <= j < k ==> starts_with_cpu(#[trigger] ls[j]),
        k < ls.len() ==> !starts_with_cpu(ls[k]),
    ensures
        cpu_section(ls) == ls.take(k),
    decreases ls.len(),
{
    if ls.len() == 0 {
        assert(cpu_section(ls) =~= ls.take(k));
    } else if k == 0 {
        assert(cpu_section(ls) =~= ls.take(0));
    } else {
        assert(starts_with_cpu(ls[0]));
        lemma_cpu_section_take(ls.skip(1), k - 1);
        assert(seq![ls[0]] + ls.skip(1).take(k - 1) =~= ls.take(k));
    }
}

/// The index at which `insert_unique` lands or collides: the count of
/// leading records with ids below `id`.
spec fn unique_pos(s: Seq<CoreInfo>, id: u64) -> int
    decreases s.len(),
{
    if s.len() == 0 {
        0
    } else if s[0].id < id {
        1 + unique_pos(s.skip(1), id)
    } else {
        0
    }
}

proof fn lemma_unique_pos_props(s: Seq<CoreInfo>, id: u64)
    ensures
        0 <= unique_pos(s, id) <= s.len(),
        forall|j: int| 0 <= j < unique_pos(s, id) ==> s[j].id < id,
        unique_pos(s, id) < s.len() ==> id <= s[unique_pos(s, id)].id,
    decreases s.len(),
{
    if s.len() == 0 {
    } else if s[0].id < id {
        lemma_unique_pos_props(s.skip(1), id);
        assert forall|j: int| 0 <= j < unique_pos(s, id) implies s[j].id < id by {
            if j > 0 {
                assert(s.skip(1)[j - 1].id < id);
            }
        }
    }
}

/// Unique insertion either collides at the landing index or splits the
/// sequence there.
proof fn lemma_insert_unique_at(s: Seq<CoreInfo>, c: CoreInfo)
    ensures
        ({
            let i = unique_pos(s, c.id);
            if i < s.len() && s[i].id == c.id {
                insert_unique(s, c) is None
            } else {
                insert_unique(s, c) == Some(s.take(i) + seq![c] + s.skip(i))
            }
        }),
    decreases s.len(),
{
    let i = unique_pos(s, c.id);
    lemma_unique_pos_props(s, c.id);
    if s.len() == 0 {
        assert(seq![c] =~= s.take(0) + seq![c] + s.skip(0));
    } else if s[0].id < c.id {
        lemma_insert_unique_at(s.skip(1), c);
        let i1 = unique_pos(s.skip(1), c.id);
        lemma_unique_pos_props(s.skip(1), c.id);
        if i1 < s.skip(1).len() && s.skip(1)[i1].id == c.id {
            assert(insert_unique(s, c) is None);
        } else {
            assert(seq![s[0]] + (s.skip(1).take(i1) + seq![c] + s.skip(1).skip(i1)) =~= s.take(i)
                + seq![c] + s.skip(i));
        }
    } else if s[0].id == c.id {
    } else {
        assert(seq![c] + s =~= s.take(0) + seq![c] + s.skip(0));
    }
}

/// Unique insertion keeps strict id order and grows the sequence by one.
proof fn lemma_insert_unique_sorted(s: Seq<CoreInfo>, c: CoreInfo)
    requires
        strictly_sorted_by_id(s),
        insert_unique(s, c) is Some,
    ensures
        strictly_sorted_by_id(insert_unique(s, c)->0),
        insert_unique(s, c)->0.len() == s.len() + 1,
{
    let i = unique_pos(s, c.id);
    lemma_unique_pos_props(s, c.id);
    lemma_insert_unique_at(s, c);
    let r = insert_unique(s, c)->0;
    assert(!(i < s.len() && s[i].id == c.id));
    assert forall|p: int, q: int| 0 <= p < q < r.len() implies r[p].id < r[q].id by {
        if p < i && q < i {
            assert(r[p] == s[p] && r[q] == s[q]);
        } else if p < i && q == i {
            assert(r[p] == s[p] && r[q] == c);
        } else if p < i && q > i {
            assert(r[p] == s[p] && r[q] == s[q - 1]);
        } else if p == i && q > i {
            assert(r[p] == c && r[q] == s[q - 1]);
            if i < s.len() {
                assert(c.id < s[i].id || s[i].id < c.id);
                assert(s[i].id <= s[q - 1].id);
            }
        } else {
            assert(r[p] == s[p - 1] && r[q] == s[q - 1]);
        }
    }
}

/// Gathering per-core lines keeps strict id order and yields one record
/// per line.
proof fn lemma_parse_core_lines_props(ls: Seq<Seq<u8>>, acc: Seq<CoreInfo>)
    requires
        strictly_sorted_by_id(acc),
    ensures
        parse_core_lines(ls, acc) matches Ok(cs) ==> strictly_sorted_by_id(cs) && cs.len()
            == acc.len() + ls.len(),
    decreases ls.len(),
{
    if ls.len() == 0 {
    } else {
        match core_of_line(ls[0]) {
            None => {},
            Some(c) => match insert_unique(acc, c) {
                None => {},
                Some(acc2) => {
                    lemma_insert_unique_sorted(acc, c);
                    lemma_parse_core_lines_props(ls.skip(1), acc2);
                },
            },
        }
    }
}

/// Reads a token as a decimal counter value.
fn parse_u64(t: &Vec<u8>) -> (r: Option<u64>)
    ensures
        r == token_u64(t@),
{
    let n = t.len();
    if n == 0 {
        return None;
    }
    let mut acc: u64 = 0;
    let mut i: usize = 0;
    while i < n
        invariant
            0 < n == t@.len(),
            i <= n,
            acc == dec_val(t@.take(i as int)),
            forall|j: int| 0 <= j < i ==> is_digit(#[trigger] t@[j]),
        decreases n - i,
    {
        let b = t[i];
        if b < DIGIT_ZERO || b > DIGIT_NINE {
            return None;
        }
        let d = (b - DIGIT_ZERO) as u64;
        proof {
            assert(t@.take(i + 1).drop_last() =~= t@.take(i as int));
            assert(t@.take(i + 1).last() == t@[i as int]);
        }
        if acc > (u64::MAX - d) / 10 {
            // The prefix already exceeds the counter width; every longer
            // digit prefix is at least as large.
            proof {
                assert(dec_val(t@.take(i + 1)) == acc * 10 + d);
                assert(dec_val(t@.take(i + 1)) > u64::MAX) by {
                    assert(acc >= (u64::MAX - d) / 10 + 1);
                    assert(((u64::MAX - d) / 10 + 1) * 10 + d > u64::MAX) by (nonlinear_arith)
                        requires
                            d <= 9,
                    ;
                    assert(acc * 10 >= ((u64::MAX - d) / 10 + 1) * 10) by (nonlinear_arith)
                        requires
                            acc >= (u64::MAX - d) / 10 + 1,
                    ;
                }
                lemma_dec_val_take_monotonic(t@, i + 1, n as int);
                assert(t@.take(n as int) =~= t@);
            }
            return None;
        }
        proof {
            assert(acc <= (u64::MAX - d) / 10);
            assert(acc * 10 + d <= u64::MAX) by (nonlinear_arith)
                requires
                    acc <= (u64::MAX - d) / 10,
                    d <= 9,
            ;
        }
        acc = acc * 10 + d;
        i = i + 1;
    }
    proof {
        assert(t@.take(n as int) =~= t@);
    }
    Some(acc)
}

/// Parsing is deterministic: a successful parse of a text denotes one
/// record sequence, and that sequence stands in strictly ascending id
/// order. Together with `parse`'s contract, parsing the same text twice
/// yields identical samples.
pub proof fn lemma_parse_deterministic(data: Seq<u8>, a: Seq<CoreInfo>, b: Seq<CoreInfo>)
    requires
        spec_parse(data) == Ok::<Seq<CoreInfo>, ParseError>(a),
        spec_parse(data) == Ok::<Seq<CoreInfo>, ParseError>(b),
    ensures
        a == b,
        strictly_sorted_by_id(a),
{
    let sec = cpu_section(split_lines(data));
    lemma_parse_core_lines_props(sec.skip(1), Seq::empty());
}

/// A successful parse yields exactly one record per `cpu<N>` line: the
/// count of counter-section lines, the aggregate line excluded.
pub proof fn lemma_parse_record_count(data: Seq<u8>, cs: Seq<CoreInfo>)
    requires
        spec_parse(data) == Ok::<Seq<CoreInfo>, ParseError>(cs),
    ensures
        cs.len() == cpu_section(split_lines(data)).len() - 1,
{
    let sec = cpu_section(split_lines(data));
    lemma_parse_core_lines_props(sec.skip(1), Seq::empty());
}

/// Splits the dump into its lines.
fn split_into_lines(data: &[u8]) -> (r: Vec<Vec<u8>>)
    ensures
        r@.map_values(|t: Vec<u8>| t@) == split_lines(data@),
{
    let n = data.len();
    let mut out: Vec<Vec<u8>> = Vec::new();
    let mut cur: Vec<u8> = Vec::new();
    let mut i: usize = 0;
    proof {
        assert(data@.skip(0) =~= data@);
        assert(out@.map_values(|t: Vec<u8>| t@) + split_lines_from(data@, Seq::empty())
            =~= split_lines_from(data@, Seq::empty()));
    }
    while i < n
        invariant
            i <= n,
            n == data@.len(),
            split_lines(data@) == out@.map_values(|t: Vec<u8>| t@) + split_lines_from(
                data@.skip(i as int),
                cur@,
            ),
        decreases n - i,
    {
        let b = data[i];
        proof {
            assert(data@.skip(i as int)[0] == b);
            assert(data@.skip(i as int).skip(1) =~= data@.skip(i + 1));
        }
        if b == NEWLINE {
            let ghost old_out = out@;
            out.push(cur);
            cur = Vec::new();
            proof {
                assert(out@.map_values(|t: Vec<u8>| t@) =~= old_out.map_values(
                    |t: Vec<u8>| t@,
                ).push(out@.last()@));
                assert(old_out.map_values(|t: Vec<u8>| t@) + (seq![out@.last()@]
                    + split_lines_from(data@.skip(i + 1), Seq::empty())) =~= out@.map_values(
                    |t: Vec<u8>| t@,
                ) + split_lines_from(data@.skip(i + 1), Seq::empty()));
            }
        } else {
            cur.push(b);
        }
        i = i + 1;
    }
    proof {
        assert(data@.skip(n as int) =~= Seq::<u8>::empty());
    }
    let ghost old_out = out@;
    out.push(cur);
    proof {
        assert(out@.map_values(|t: Vec<u8>| t@) =~= old_out.map_values(|t: Vec<u8>| t@).push(
            out@.last()@,
        ));
        assert(old_out.map_values(|t: Vec<u8>| t@) + seq![out@.last()@] =~= out@.map_values(
            |t: Vec<u8>| t@,
        ));
    }
    out
}

/// Does the line open with `cpu`?
fn is_cpu_line(l: &Vec<u8>) -> (b: bool)
    ensures
        b == starts_with_cpu(l@),
{
    l.len() >= 3 && l[0] == LOWER_C && l[1] == LOWER_P && l[2] == LOWER_U
}

/// Checks the ten counter tokens of the aggregate line.
fn check_counter_block(l: &Vec<u8>) -> (b: bool)
    requires
        l@.len() >= 3,
    ensures
        b == counter_block_ok(l@.skip(3)),
{
    let toks = tokenize_from(l, 3);
    let ghost ts = tokens(l@.skip(3));
    proof {
        assert(ts.len() == toks@.len());
    }
    if toks.len() != 10 {
        return false;
    }
    let mut j: usize = 0;
    while j < 10
        invariant
            j <= 10,
            toks@.len() == 10,
            ts == tokens(l@.skip(3)),
            ts == toks@.map_values(|t: Vec<u8>| t@),
            ts.len() == 10,
            l@.len() >= 3,
            forall|p: int| 0 <= p < j ==> token_u64(#[trigger] ts[p]) is Some,
        decreases 10 - j,
    {
        proof {
            assert(ts[j as int] == toks@[j as int]@);
        }
        if parse_u64(&toks[j]).is_none() {
            proof {
                assert(token_u64(tokens(l@.skip(3))[j as int]) is None);
            }
            return false;
        }
        j = j + 1;
    }
    true
}

/// Reads one per-core line: the id digits attached to `cpu`, then the ten
/// counters in fixed order.
fn parse_core_line(l: &Vec<u8>) -> (r: Option<CoreInfo>)
    requires
        starts_with_cpu(l@),
    ensures
        r == core_of_line(l@),
{
    let ghost ts = tokens(l@.skip(3));
    if l.len() < 4 {
        return None;
    }
    let b3 = l[3];
    if b3 < DIGIT_ZERO || b3 > DIGIT_NINE {
        return None;
    }
    let toks = tokenize_from(l, 3);
    proof {
        assert(ts.len() == toks@.len());
    }
    if toks.len() != 11 {
        return None;
    }
    let mut vals: Vec<u64> = Vec::new();
    let mut j: usize = 0;
    while j < 11
        invariant
            j <= 11,
            toks@.len() == 11,
            ts == tokens(l@.skip(3)),
            ts == toks@.map_values(|t: Vec<u8>| t@),
            ts.len() == 11,
            l@.len() >= 3,
            vals@.len() == j,
            forall|p: int| 0 <= p < j ==> token_u64(#[trigger] ts[p]) == Some(vals@[p]),
        decreases 11 - j,
    {
        proof {
            assert(ts[j as int] == toks@[j as int]@);
        }
        match parse_u64(&toks[j]) {
            Some(v) => vals.push(v),
            None => {
                proof {
                    assert(token_u64(tokens(l@.skip(3))[j as int]) is None);
                }
                return None;
            },
        }
        j = j + 1;
    }
    Some(
        CoreInfo {
            id: vals[0],
            user: vals[1],
            nice: vals[2],
            system: vals[3],
            idle: vals[4],
            iowait: vals[5],
            irq: vals[6],
            softirq: vals[7],
            steal: vals[8],
            guest: vals[9],
            guest_nice: vals[10],
        },
    )
}

/// The landing index determines `unique_pos`.
proof fn lemma_unique_pos_eq(s: Seq<CoreInfo>, id: u64, i: int)
    requires
        0 <= i <= s.len(),
        forall|j: int| 0 <= j < i ==> s[j].id < id,
        i < s.len() ==> id <= s[i].id,
    ensures
        unique_pos(s, id) == i,
    decreases s.len(),
{
    if s.len() == 0 {
    } else if i == 0 {
    } else {
        lemma_unique_pos_eq(s.skip(1), id, i - 1);
    }
}

/// Inserts a record into an id-ordered vector, keeping strict order;
/// reports a collision instead of inserting when the id is already there.
fn insert_unique_exec(v: &mut Vec<CoreInfo>, c: CoreInfo) -> (ok: bool)
    requires
        strictly_sorted_by_id(old(v)@),
    ensures
        ok == (insert_unique(old(v)@, c) is Some),
        ok ==> final(v)@ == insert_unique(old(v)@, c)->0 && strictly_sorted_by_id(final(v)@),
        !ok ==> final(v)@ == old(v)@,
{
    let n = v.len();
    let mut i: usize = 0;
    while i < n && v[i].id < c.id
        invariant
            i <= n,
            n == v@.len(),
            v@ == old(v)@,
            forall|j: int| 0 <= j < i ==> v@[j].id < c.id,
        decreases n - i,
    {
        i = i + 1;
    }
    proof {
        lemma_unique_pos_eq(v@, c.id, i as int);
        lemma_insert_unique_at(v@, c);
    }
    if i < n && v[i].id == c.id {
        return false;
    }
    proof {
        lemma_insert_unique_sorted(v@, c);
        assert(old(v)@.take(i as int) + seq![c] + old(v)@.skip(i as int) =~= old(v)@.insert(
            i as int,
            c,
        ));
    }
    v.insert(i, c);
    true
}

/// Parses the textual counter dump into a sample: skips the aggregate
/// line, reads one record per `cpu<N>` line, stops at the first line not
/// prefixed `cpu`, and orders the records ascending by id. Rejects a dump
/// with no counter lines, a leading line that is not the aggregate, a
/// malformed line, or a duplicate id — returning no partial sample.
pub fn parse(data: &[u8]) -> (r: Result<Stat, ParseError>)
    ensures
        (match spec_parse(data@) {
            Ok(cs) => r matches Ok(s) && s.cores@ == cs,
            Err(e) => r matches Err(e2) && e2 == e,
        }),
        r matches Ok(s) ==> stat_wf(s),
{
    let lines = split_into_lines(data);
    let ghost lviews = lines@.map_values(|t: Vec<u8>| t@);
    let n = lines.len();
    let mut k: usize = 0;
    while k < n && is_cpu_line(&lines[k])
        invariant
            k <= n,
            n == lines@.len(),
            lviews == lines@.map_values(|t: Vec<u8>| t@),
            forall|j: int| 0 <= j < k ==> starts_with_cpu(#[trigger] lviews[j]),
        decreases n - k,
    {
        proof {
            assert(lviews[k as int] == lines@[k as int]@);
        }
        k = k + 1;
    }
    proof {
        assert(k < n ==> lviews[k as int] == lines@[k as int]@);
        lemma_cpu_section_take(lviews, k as int);
    }
    let ghost sec = cpu_section(split_lines(data@));
    if k == 0 {
        return Err(ParseError::Empty);
    }
    proof {
        assert(sec[0] == lviews[0]);
        assert(lviews[0] == lines@[0]@);
    }
    let first = &lines[0];
    if !(first.len() >= 4 && (first[3] == SPACE || first[3] == TAB)) {
        return Err(ParseError::NoAggregateLine);
    }
    if !check_counter_block(first) {
        return Err(ParseError::MalformedLine);
    }
    if k == 1 {
        return Err(ParseError::Empty);
    }
    let mut cores: Vec<CoreInfo> = Vec::new();
    let mut i: usize = 1;
    while i < k
        invariant
            1 <= i <= k <= n,
            n == lines@.len(),
            lviews == lines@.map_values(|t: Vec<u8>| t@),
            sec == lviews.take(k as int),
            sec.len() == k,
            forall|j: int| 0 <= j < k ==> starts_with_cpu(#[trigger] lviews[j]),
            strictly_sorted_by_id(cores@),
            spec_parse(data@) == parse_core_lines(sec.skip(i as int), cores@),
        decreases k - i,
    {
        proof {
            assert(lviews[i as int] == lines@[i as int]@);
            assert(sec.skip(i as int)[0] == sec[i as int]);
            assert(sec.skip(i as int).skip(1) =~= sec.skip(i + 1));
        }
        let line = &lines[i];
        match parse_core_line(line) {
            None => {
                return Err(ParseError::MalformedLine);
            },
            Some(c) => {
                if !insert_unique_exec(&mut cores, c) {
                    return Err(ParseError::DuplicateCoreId);
                }
            },
        }
        i = i + 1;
    }
    proof {
        assert(sec.skip(k as int) =~= Seq::<Seq<u8>>::empty());
    }
    Ok(Stat { cores })
}

} // verus!
