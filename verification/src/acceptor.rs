//! The user acceptor's routing decision: reading the `Host` header out of
//! the first bytes of a user connection and reducing it to the tunnel's
//! subdomain.
//!
//! The process peeks the head of the stream without consuming it, hands the
//! decoded text here, and routes on the answer; the bytes themselves stay
//! opaque from then on.

use vstd::prelude::*;
use vstd::string::StrSliceExecFns;
use crate::client::{is_space, trim_back, trim_front};

verus! {

broadcast use vstd::seq_lib::group_seq_properties;

/// Whether position `i` starts a line: the head of the text, or the
/// position right after a `\r\n`.
pub open spec fn is_line_start(s: Seq<char>, i: int) -> bool {
    i == 0 || (2 <= i <= s.len() && s[i - 2] == '\r' && s[i - 1] == '\n')
}

/// Whether a `Host:` header name, in any letter case, stands at `i`.
pub open spec fn host_name_at(s: Seq<char>, i: int) -> bool {
    &&& 0 <= i
    &&& i + 5 <= s.len()
    &&& (s[i] == 'H' || s[i] == 'h')
    &&& (s[i + 1] == 'o' || s[i + 1] == 'O')
    &&& (s[i + 2] == 's' || s[i + 2] == 'S')
    &&& (s[i + 3] == 't' || s[i + 3] == 'T')
    &&& s[i + 4] == ':'
}

/// Whether a `Host` header line starts at `i`. The head of the text is the
/// request line, never a header, so `i` must start a later line.
pub open spec fn host_header_at(s: Seq<char>, i: int) -> bool {
    &&& i > 0
    &&& is_line_start(s, i)
    &&& host_name_at(s, i)
}

/// The characters of `s` before the first line break.
pub open spec fn before_line_break(s: Seq<char>) -> Seq<char>
    decreases s.len(),
{
    if s.len() == 0 {
        s
    } else if s[0] == '\r' || s[0] == '\n' {
        Seq::empty()
    } else {
        seq![s[0]] + before_line_break(s.skip(1))
    }
}

/// The characters of `s` before the first `.` or `:`: the leftmost label of
/// a host value, with any port cut off.
pub open spec fn leftmost_label(s: Seq<char>) -> Seq<char>
    decreases s.len(),
{
    if s.len() == 0 {
        s
    } else if s[0] == '.' || s[0] == ':' {
        Seq::empty()
    } else {
        seq![s[0]] + leftmost_label(s.skip(1))
    }
}

/// The subdomain named by the `Host` header whose value starts at `from`:
/// the line's value, trimmed of whitespace, up to the first `.` or `:`.
pub open spec fn label_at(s: Seq<char>, from: int) -> Seq<char> {
    leftmost_label(trim_back(trim_front(before_line_break(s.skip(from)))))
}

fn is_break_char(c: char) -> (r: bool)
    ensures
        r == (c == '\r' || c == '\n'),
{
    c == '\r' || c == '\n'
}

fn is_space_char(c: char) -> (r: bool)
    ensures
        r == is_space(c),
{
    c == ' ' || c == '\t' || c == '\n' || c == '\r'
}

fn is_label_end(c: char) -> (r: bool)
    ensures
        r == (c == '.' || c == ':'),
{
    c == '.' || c == ':'
}

fn find_host_header(head: &str) -> (r: Option<usize>)
    ensures
        r is None ==> forall|i: int| !host_header_at(head@, i),
        r matches Some(start) ==> {
            &&& host_header_at(head@, start as int)
            &&& forall|j: int| 0 <= j < start ==> !host_header_at(head@, j)
            &&& start + 5 <= head@.len()
        },
{
    let len = head.unicode_len();
    let mut i: usize = 0;
    let mut start: usize = 0;
    let mut found = false;
    while !found && i < len
        invariant
            len == head@.len(),
            i <= len,
            !found ==> forall|j: int| 0 <= j < i ==> !host_header_at(head@, j),
            found ==> host_header_at(head@, start as int) && (forall|j: int|
                0 <= j < start ==> !host_header_at(head@, j)) && start < len,
        decreases len - i + (if found { 0int } else { 1int }),
    {
        let mut matched = false;
        if i > 0 && len - i >= 5 {
            let line_start = if i >= 2 {
                head.get_char(i - 2) == '\r' && head.get_char(i - 1) == '\n'
            } else {
                false
            };
            if line_start {
                let c0 = head.get_char(i);
                let c1 = head.get_char(i + 1);
                let c2 = head.get_char(i + 2);
                let c3 = head.get_char(i + 3);
                let c4 = head.get_char(i + 4);
                if (c0 == 'H' || c0 == 'h') && (c1 == 'o' || c1 == 'O') && (c2 == 's' || c2
                    == 'S') && (c3 == 't' || c3 == 'T') && c4 == ':' {
                    matched = true;
                }
            }
        }
        if matched {
            found = true;
            start = i;
        } else {
            proof {
                assert(!host_header_at(head@, i as int));
            }
            i += 1;
        }
    }
    if !found {
        proof {
            assert forall|j: int| !host_header_at(head@, j) by {
                if 0 <= j < len {
                    assert(!host_header_at(head@, j));
                } else {
                    assert(!(0 <= j && j + 5 <= len));
                }
            }
        }
        return None;
    }
    Some(start)
}

fn value_end(head: &str, vs: usize) -> (j: usize)
    requires
        vs <= head@.len(),
    ensures
        vs <= j <= head@.len(),
        before_line_break(head@.skip(vs as int)) =~= head@.subrange(vs as int, j as int),
{
    let len = head.unicode_len();
    let ghost tail = head@.skip(vs as int);
    let mut j: usize = vs;
    while j < len && !is_break_char(head.get_char(j))
        invariant
            len == head@.len(),
            vs <= j <= len,
            tail == head@.skip(vs as int),
            before_line_break(tail) =~= head@.subrange(vs as int, j as int) + before_line_break(
                head@.skip(j as int),
            ),
        decreases len - j,
    {
        proof {
            let t = head@.skip(j as int);
            assert(t[0] == head@[j as int]);
            assert(t.skip(1) =~= head@.skip(j + 1));
            assert(head@.subrange(vs as int, j as int) + before_line_break(t) =~= head@.subrange(
                vs as int,
                j + 1,
            ) + before_line_break(head@.skip(j + 1)));
        }
        j += 1;
    }
    proof {
        let t = head@.skip(j as int);
        if j < len {
            assert(t[0] == head@[j as int]);
            assert(before_line_break(t) =~= Seq::<char>::empty());
        } else {
            assert(t.len() == 0);
        }
        assert(before_line_break(tail) =~= head@.subrange(vs as int, j as int));
    }
    j
}

fn trim_bounds(head: &str, vs: usize, j: usize) -> (r: (usize, usize))
    requires
        vs <= j <= head@.len(),
    ensures
        vs <= r.0 <= r.1 <= j,
        trim_back(trim_front(head@.subrange(vs as int, j as int))) =~= head@.subrange(
            r.0 as int,
            r.1 as int,
        ),
{
    let mut a = vs;
    while a < j && is_space_char(head.get_char(a))
        invariant
            j <= head@.len(),
            vs <= a <= j,
            trim_front(head@.subrange(vs as int, j as int)) == trim_front(
                head@.subrange(a as int, j as int),
            ),
        decreases j - a,
    {
        proof {
            let seg = head@.subrange(a as int, j as int);
            assert(seg[0] == head@[a as int]);
            assert(seg.skip(1) =~= head@.subrange(a + 1, j as int));
        }
        a += 1;
    }
    proof {
        let seg = head@.subrange(a as int, j as int);
        if a < j {
            assert(seg[0] == head@[a as int]);
        }
        assert(trim_front(seg) == seg);
    }
    let mut b = j;
    while b > a && is_space_char(head.get_char(b - 1))
        invariant
            j <= head@.len(),
            vs <= a <= b <= j,
            trim_back(trim_front(head@.subrange(vs as int, j as int))) == trim_back(
                head@.subrange(a as int, b as int),
            ),
            trim_front(head@.subrange(a as int, j as int)) == head@.subrange(a as int, j as int),
        decreases b,
    {
        proof {
            let seg = head@.subrange(a as int, b as int);
            assert(seg.last() == head@[b - 1]);
            assert(seg.drop_last() =~= head@.subrange(a as int, b - 1));
        }
        b -= 1;
    }
    proof {
        let seg = head@.subrange(a as int, b as int);
        if b > a {
            assert(seg.last() == head@[b - 1]);
        }
        assert(trim_back(seg) == seg);
    }
    (a, b)
}

fn label_end(head: &str, a: usize, b: usize) -> (e: usize)
    requires
        a <= b <= head@.len(),
    ensures
        a <= e <= b,
        leftmost_label(head@.subrange(a as int, b as int)) =~= head@.subrange(a as int, e as int),
{
    let mut e = a;
    while e < b && !is_label_end(head.get_char(e))
        invariant
            b <= head@.len(),
            a <= e <= b,
            leftmost_label(head@.subrange(a as int, b as int)) =~= head@.subrange(
                a as int,
                e as int,
            ) + leftmost_label(head@.subrange(e as int, b as int)),
        decreases b - e,
    {
        proof {
            let t = head@.subrange(e as int, b as int);
            assert(t[0] == head@[e as int]);
            assert(t.skip(1) =~= head@.subrange(e + 1, b as int));
            assert(head@.subrange(a as int, e as int) + leftmost_label(t) =~= head@.subrange(
                a as int,
                e + 1,
            ) + leftmost_label(head@.subrange(e + 1, b as int)));
        }
        e += 1;
    }
    proof {
        let t = head@.subrange(e as int, b as int);
        if e < b {
            assert(t[0] == head@[e as int]);
            assert(leftmost_label(t) =~= Seq::<char>::empty());
        } else {
            assert(t.len() == 0);
        }
        assert(leftmost_label(head@.subrange(a as int, b as int)) =~= head@.subrange(
            a as int,
            e as int,
        ));
    }
    e
}

fn read_label(head: &str, vs: usize) -> (r: Option<String>)
    requires
        vs <= head@.len(),
    ensures
        r is None ==> label_at(head@, vs as int).len() == 0,
        r matches Some(sub) ==> sub@ == label_at(head@, vs as int) && sub@.len() > 0,
{
    let j = value_end(head, vs);
    let (a, b) = trim_bounds(head, vs, j);
    let e = label_end(head, a, b);
    proof {
        assert(label_at(head@, vs as int) =~= head@.subrange(a as int, e as int));
    }
    if a == e {
        None
    } else {
        let label = head.substring_char(a, e);
        proof {
            assert(label@ =~= head@.subrange(a as int, e as int));
        }
        Some(label.to_owned())
    }
}

/// Reads the subdomain a user connection asks for out of the decoded head
/// of its byte stream: the leftmost label of the value of the first `Host`
/// header. Nothing is returned when no `Host` header line is present or its
/// label is empty.
pub fn extract_subdomain(head: &str) -> (r: Option<String>)
    ensures
        r is None ==> (forall|i: int| !host_header_at(head@, i)) || (exists|i: int|
            {
                &&& #[trigger] host_header_at(head@, i)
                &&& (forall|j: int| 0 <= j < i ==> !host_header_at(head@, j))
                &&& label_at(head@, i + 5).len() == 0
            }),
        r matches Some(sub) ==> exists|i: int|
            {
                &&& #[trigger] host_header_at(head@, i)
                &&& (forall|j: int| 0 <= j < i ==> !host_header_at(head@, j))
                &&& sub@ == label_at(head@, i + 5)
                &&& sub@.len() > 0
            },
{
    let len = head.unicode_len();
    match find_host_header(head) {
        Some(start) => read_label(head, start + 5),
        None => None,
    }
}

} // verus!
