//! The list of ports to listen on, written as comma-separated fields, each a
//! port (`7070`) or an inclusive range (`8000-8010`).
use vstd::prelude::*;

verus! {

/// A character of the Unicode `White_Space` property, which `str::trim` strips.
pub open spec fn is_white(c: char) -> bool {
    let u = c as u32;
    u == 0x20 || (0x09 <= u <= 0x0d) || u == 0x85 || u == 0xa0 || u == 0x1680 || (0x2000 <= u
        <= 0x200a) || u == 0x2028 || u == 0x2029 || u == 0x202f || u == 0x205f || u == 0x3000
}

pub open spec fn trim_start(s: Seq<char>) -> Seq<char>
    decreases s.len(),
{
    if s.len() > 0 && is_white(s[0]) {
        trim_start(s.drop_first())
    } else {
        s
    }
}

pub open spec fn trim_end(s: Seq<char>) -> Seq<char>
    decreases s.len(),
{
    if s.len() > 0 && is_white(s.last()) {
        trim_end(s.drop_last())
    } else {
        s
    }
}

/// `s` without leading and trailing white space.
pub open spec fn trim(s: Seq<char>) -> Seq<char> {
    trim_end(trim_start(s))
}

/// The fields of `s` between occurrences of `sep`; one field more than there
/// are separators.
pub open spec fn split(s: Seq<char>, sep: char) -> Seq<Seq<char>>
    decreases s.len(),
{
    if s.len() == 0 {
        seq![Seq::empty()]
    } else {
        let init = split(s.drop_last(), sep);
        if s.last() == sep {
            init.push(Seq::empty())
        } else {
            init.update(init.len() - 1, init.last().push(s.last()))
        }
    }
}

pub open spec fn is_digit(c: char) -> bool {
    0x30 <= c as u32 <= 0x39
}

/// The value of a string of decimal digits.
pub open spec fn digits_value(d: Seq<char>) -> nat
    decreases d.len(),
{
    if d.len() == 0 {
        0
    } else {
        digits_value(d.drop_last()) * 10 + (d.last() as u32 - 0x30) as nat
    }
}

/// The digits of a number with an optional leading `+`.
pub open spec fn unsigned_digits(t: Seq<char>) -> Seq<char> {
    if t.len() > 0 && t[0] == '+' {
        t.drop_first()
    } else {
        t
    }
}

/// A port number as `str::parse::<u16>` reads it: an optional `+`, then one
/// or more decimal digits whose value fits in 16 bits.
pub open spec fn parse_port(t: Seq<char>) -> Option<u16> {
    let d = unsigned_digits(t);
    if d.len() > 0 && (forall|i: int| 0 <= i < d.len() ==> is_digit(#[trigger] d[i]))
        && digits_value(d) <= u16::MAX {
        Some(digits_value(d) as u16)
    } else {
        None
    }
}

/// The ports `lo` to `hi`, both included; none when `lo > hi`.
pub open spec fn port_range(lo: u16, hi: u16) -> Seq<u16> {
    Seq::new(
        if lo <= hi {
            (hi - lo + 1) as nat
        } else {
            0
        },
        |k: int| (lo + k) as u16,
    )
}

/// The ports one field names: none for a blank field; for a field with a
/// dash, the range between the trimmed parts before the first dash and
/// between the first and second dash; otherwise the port the trimmed field
/// spells. `None` when a number does not parse.
pub open spec fn field_ports(f: Seq<char>) -> Option<Seq<u16>> {
    let t = trim(f);
    let parts = split(t, '-');
    if t.len() == 0 {
        Some(Seq::empty())
    } else if parts.len() > 1 {
        match (parse_port(trim(parts[0])), parse_port(trim(parts[1]))) {
            (Some(lo), Some(hi)) => Some(port_range(lo, hi)),
            _ => None,
        }
    } else {
        match parse_port(t) {
            Some(p) => Some(seq![p]),
            None => None,
        }
    }
}

/// The ports of the fields in turn; `None` if any field fails.
pub open spec fn fields_ports(fields: Seq<Seq<char>>) -> Option<Seq<u16>>
    decreases fields.len(),
{
    if fields.len() == 0 {
        Some(Seq::empty())
    } else {
        match (fields_ports(fields.drop_last()), field_ports(fields.last())) {
            (Some(a), Some(b)) => Some(a + b),
            _ => None,
        }
    }
}

/// The ports a comma-separated list names, in order, duplicates kept.
pub open spec fn port_list(s: Seq<char>) -> Option<Seq<u16>> {
    fields_ports(split(s, ','))
}

#[derive(Debug, PartialEq, Eq, Structural)]
pub enum PortListError {
    /// A field holds something other than a port or a range of ports.
    InvalidPort,
}

/// The views of the windows `bounds` marks in `v`.
pub open spec fn windows(v: Seq<char>, bounds: Seq<(usize, usize)>) -> Seq<Seq<char>> {
    bounds.map_values(|b: (usize, usize)| v.subrange(b.0 as int, b.1 as int))
}

/// The fields of `v[lo..hi]` between occurrences of `sep`, as windows of `v`.
fn split_bounds(v: &Vec<char>, lo: usize, hi: usize, sep: char) -> (r: Vec<(usize, usize)>)
    requires
        lo <= hi <= v@.len(),
    ensures
        windows(v@, r@) == split(v@.subrange(lo as int, hi as int), sep),
        forall|k: int| 0 <= k < r@.len() ==> lo <= (#[trigger] r@[k]).0 <= r@[k].1 <= hi,
{
    let mut done: Vec<(usize, usize)> = Vec::new();
    let mut start: usize = lo;
    let mut i: usize = lo;
    proof {
        assert(v@.subrange(lo as int, lo as int) =~= Seq::<char>::empty());
        assert(windows(v@, done@).push(v@.subrange(start as int, i as int)) =~= seq![
            Seq::<char>::empty(),
        ]);
    }
    while i < hi
        invariant
            lo <= start <= i <= hi <= v@.len(),
            windows(v@, done@).push(v@.subrange(start as int, i as int)) == split(
                v@.subrange(lo as int, i as int),
                sep,
            ),
            forall|k: int| 0 <= k < done@.len() ==> lo <= (#[trigger] done@[k]).0 <= done@[k].1 <= i,
        decreases hi - i,
    {
        let ghost prev = windows(v@, done@).push(v@.subrange(start as int, i as int));
        let ghost sub = v@.subrange(lo as int, i as int + 1);
        proof {
            assert(sub.drop_last() =~= v@.subrange(lo as int, i as int));
            assert(sub.last() == v@[i as int]);
        }
        if v[i] == sep {
            done.push((start, i));
            start = i + 1;
            proof {
                assert(v@.subrange(start as int, i + 1) =~= Seq::<char>::empty());
                assert(windows(v@, done@).push(v@.subrange(start as int, i + 1)) =~= prev.push(
                    Seq::empty(),
                ));
            }
        } else {
            proof {
                assert(v@.subrange(start as int, i + 1) =~= v@.subrange(start as int, i as int).push(
                    v@[i as int],
                ));
                assert(windows(v@, done@).push(v@.subrange(start as int, i + 1)) =~= prev.update(
                    prev.len() - 1,
                    prev.last().push(v@[i as int]),
                ));
            }
        }
        i += 1;
    }
    let ghost before = done@;
    done.push((start, hi));
    proof {
        assert(windows(v@, done@) =~= windows(v@, before).push(
            v@.subrange(start as int, hi as int),
        ));
    }
    done
}

fn is_white_char(c: char) -> (r: bool)
    ensures
        r == is_white(c),
{
    let u = c as u32;
    u == 0x20 || (0x09 <= u && u <= 0x0d) || u == 0x85 || u == 0xa0 || u == 0x1680 || (0x2000
        <= u && u <= 0x200a) || u == 0x2028 || u == 0x2029 || u == 0x202f || u == 0x205f || u
        == 0x3000
}

/// The window of `v[lo..hi]` left after trimming white space.
fn trim_window(v: &Vec<char>, lo: usize, hi: usize) -> (r: (usize, usize))
    requires
        lo <= hi <= v@.len(),
    ensures
        lo <= r.0 <= r.1 <= hi,
        v@.subrange(r.0 as int, r.1 as int) == trim(v@.subrange(lo as int, hi as int)),
{
    let mut a: usize = lo;
    while a < hi && is_white_char(v[a])
        invariant
            lo <= a <= hi <= v@.len(),
            trim_start(v@.subrange(a as int, hi as int)) == trim_start(
                v@.subrange(lo as int, hi as int),
            ),
        decreases hi - a,
    {
        proof {
            assert(v@.subrange(a as int, hi as int).drop_first() =~= v@.subrange(
                a + 1,
                hi as int,
            ));
        }
        a += 1;
    }
    let mut b: usize = hi;
    while b > a && is_white_char(v[b - 1])
        invariant
            lo <= a <= b <= hi <= v@.len(),
            trim_end(v@.subrange(a as int, b as int)) == trim(v@.subrange(lo as int, hi as int)),
        decreases b - a,
    {
        proof {
            assert(v@.subrange(a as int, b as int).drop_last() =~= v@.subrange(
                a as int,
                b - 1,
            ));
        }
        b -= 1;
    }
    (a, b)
}

proof fn lemma_digits_prefix(d: Seq<char>, j: int)
    requires
        0 <= j <= d.len(),
    ensures
        digits_value(d.subrange(0, j)) <= digits_value(d),
    decreases d.len(),
{
    if j < d.len() {
        lemma_digits_prefix(d.drop_last(), j);
        assert(d.drop_last().subrange(0, j) =~= d.subrange(0, j));
    } else {
        assert(d.subrange(0, j) =~= d);
    }
}

/// The port `v[lo..hi]` spells, as `str::parse::<u16>` reads it.
fn parse_port_window(v: &Vec<char>, lo: usize, hi: usize) -> (r: Option<u16>)
    requires
        lo <= hi <= v@.len(),
    ensures
        r == parse_port(v@.subrange(lo as int, hi as int)),
{
    let ghost t = v@.subrange(lo as int, hi as int);
    let mut k: usize = lo;
    if k < hi && v[k] == '+' {
        k += 1;
    }
    let ghost d = v@.subrange(k as int, hi as int);
    proof {
        if t.len() > 0 && t[0] == '+' {
            assert(d =~= t.drop_first());
        } else {
            assert(d =~= t);
        }
    }
    if k == hi {
        return None;
    }
    let mut acc: u32 = 0;
    let mut j: usize = k;
    proof {
        assert(d.subrange(0, 0) =~= Seq::<char>::empty());
    }
    while j < hi
        invariant
            k <= j <= hi <= v@.len(),
            d == v@.subrange(k as int, hi as int),
            d == unsigned_digits(v@.subrange(lo as int, hi as int)),
            forall|i: int| 0 <= i < j - k ==> is_digit(#[trigger] d[i]),
            acc == digits_value(d.subrange(0, j - k)),
            acc <= u16::MAX,
        decreases hi - j,
    {
        let c = v[j];
        let u = c as u32;
        if u < 0x30 || u > 0x39 {
            proof {
                assert(d[j - k] == c);
            }
            return None;
        }
        proof {
            assert(d.subrange(0, j - k + 1).drop_last() =~= d.subrange(0, j - k));
            assert(d.subrange(0, j - k + 1).last() == c);
        }
        acc = acc * 10 + (u - 0x30);
        if acc > 0xffff {
            proof {
                if forall|i: int| 0 <= i < d.len() ==> is_digit(#[trigger] d[i]) {
                    lemma_digits_prefix(d, j - k + 1);
                }
            }
            return None;
        }
        proof {
            assert forall|i: int| 0 <= i < j + 1 - k implies is_digit(#[trigger] d[i]) by {
                if i == j - k {
                    assert(d[i] == c);
                }
            }
        }
        j += 1;
    }
    proof {
        assert(d.subrange(0, j - k) =~= d);
    }
    Some(acc as u16)
}

/// The ports `lo` to `hi`, both included.
fn range_ports(lo: u16, hi: u16) -> (r: Vec<u16>)
    ensures
        r@ == port_range(lo, hi),
{
    let mut out: Vec<u16> = Vec::new();
    if lo > hi {
        proof {
            assert(out@ =~= port_range(lo, hi));
        }
        return out;
    }
    let mut p: u32 = lo as u32;
    while p <= hi as u32
        invariant
            lo <= p <= hi as u32 + 1,
            lo <= hi,
            out@ =~= Seq::new((p - lo) as nat, |k: int| (lo + k) as u16),
        decreases hi as u32 + 1 - p,
    {
        out.push(p as u16);
        p += 1;
    }
    proof {
        assert(out@ =~= port_range(lo, hi));
    }
    out
}

/// The ports the field `v[lo..hi]` names.
fn field_ports_window(v: &Vec<char>, lo: usize, hi: usize) -> (r: Option<Vec<u16>>)
    requires
        lo <= hi <= v@.len(),
    ensures
        match r {
            Some(x) => field_ports(v@.subrange(lo as int, hi as int)) == Some(x@),
            None => field_ports(v@.subrange(lo as int, hi as int)) is None,
        },
{
    let (a, b) = trim_window(v, lo, hi);
    if a == b {
        return Some(Vec::new());
    }
    let parts = split_bounds(v, a, b, '-');
    proof {
        assert(windows(v@, parts@).len() == parts@.len());
    }
    if parts.len() > 1 {
        let (first_lo, first_hi) = trim_window(v, parts[0].0, parts[0].1);
        let (second_lo, second_hi) = trim_window(v, parts[1].0, parts[1].1);
        proof {
            assert(windows(v@, parts@)[0] == v@.subrange(parts@[0].0 as int, parts@[0].1 as int));
            assert(windows(v@, parts@)[1] == v@.subrange(parts@[1].0 as int, parts@[1].1 as int));
        }
        let first = parse_port_window(v, first_lo, first_hi);
        let second = parse_port_window(v, second_lo, second_hi);
        match (first, second) {
            (Some(p), Some(q)) => Some(range_ports(p, q)),
            _ => None,
        }
    } else {
        match parse_port_window(v, a, b) {
            Some(p) => {
                let mut out: Vec<u16> = Vec::new();
                out.push(p);
                proof {
                    assert(out@ =~= seq![p]);
                }
                Some(out)
            },
            None => None,
        }
    }
}

proof fn lemma_failure_sticks(fields: Seq<Seq<char>>, k: int)
    requires
        0 <= k < fields.len(),
        fields_ports(fields.take(k + 1)) is None,
    ensures
        fields_ports(fields) is None,
    decreases fields.len(),
{
    if k + 1 == fields.len() {
        assert(fields.take(k + 1) =~= fields);
    } else {
        assert(fields.drop_last().take(k + 1) =~= fields.take(k + 1));
        lemma_failure_sticks(fields.drop_last(), k);
    }
}

/// Reads a comma-separated list of ports and inclusive port ranges. Blank
/// fields are skipped; a range whose start exceeds its end names no port.
pub fn parse_ports(ports: &str) -> (r: Result<Vec<u16>, PortListError>)
    ensures
        match r {
            Ok(v) => port_list(ports@) == Some(v@),
            Err(_) => port_list(ports@) is None,
        },
{
    let n = ports.unicode_len();
    let mut chars: Vec<char> = Vec::new();
    let mut i: usize = 0;
    while i < n
        invariant
            i <= n,
            n == ports@.len(),
            chars@ == ports@.take(i as int),
        decreases n - i,
    {
        chars.push(ports.get_char(i));
        proof {
            assert(chars@ =~= ports@.take(i + 1));
        }
        i += 1;
    }
    proof {
        assert(chars@ =~= ports@);
        assert(chars@.subrange(0, n as int) =~= ports@);
    }
    let fields = split_bounds(&chars, 0, n, ',');
    let ghost all = windows(chars@, fields@);
    let mut out: Vec<u16> = Vec::new();
    let mut k: usize = 0;
    proof {
        assert(all.take(0) =~= Seq::<Seq<char>>::empty());
    }
    while k < fields.len()
        invariant
            k <= fields@.len(),
            all == windows(chars@, fields@),
            all.len() == fields@.len(),
            all == split(ports@, ','),
            forall|j: int|
                0 <= j < fields@.len() ==> 0 <= (#[trigger] fields@[j]).0 <= fields@[j].1 <= n,
            n == chars@.len(),
            fields_ports(all.take(k as int)) == Some(out@),
        decreases fields@.len() - k,
    {
        let (lo, hi) = fields[k];
        proof {
            assert(all.take(k + 1).drop_last() =~= all.take(k as int));
            assert(all.take(k + 1).last() == chars@.subrange(lo as int, hi as int));
        }
        match field_ports_window(&chars, lo, hi) {
            Some(mut x) => {
                out.append(&mut x);
            },
            None => {
                proof {
                    lemma_failure_sticks(all, k as int);
                }
                return Err(PortListError::InvalidPort);
            },
        }
        k += 1;
    }
    proof {
        assert(all.take(k as int) =~= all);
    }
    Ok(out)
}

} // verus!
