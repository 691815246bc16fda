//! Service lifecycle states and the best-effort parser for the status
//! listing: newline-separated lines of the shape `name => Status`, where a
//! line of any other shape is dropped silently.

use vstd::prelude::*;

use crate::assoc::{assoc_map, assoc_set, find_key_idx, key_present, lemma_assoc_set,
    lemma_remove_key_at, lemma_remove_key_none, remove_key, unique_keys};

verus! {

/// The lifecycle state of one named internal component of the target
/// service; a closed vocabulary, parsed from its six literal spellings.
#[derive(Debug, Clone, Copy, PartialEq, Eq, Structural)]
pub enum ServiceStatus {
    New,
    Starting,
    Running,
    Stopping,
    Terminated,
    Failed,
}

/// A string outside the six status literals was offered as a status.
#[derive(Debug, Clone, Copy, PartialEq, Eq, Structural)]
pub struct ParseError;

/// Which status a string spells, if any.
pub open spec fn status_of(s: Seq<char>) -> Option<ServiceStatus> {
    if s == "New"@ {
        Some(ServiceStatus::New)
    } else if s == "Starting"@ {
        Some(ServiceStatus::Starting)
    } else if s == "Running"@ {
        Some(ServiceStatus::Running)
    } else if s == "Stopping"@ {
        Some(ServiceStatus::Stopping)
    } else if s == "Terminated"@ {
        Some(ServiceStatus::Terminated)
    } else if s == "Failed"@ {
        Some(ServiceStatus::Failed)
    } else {
        None
    }
}

/// Whether the characters of `a` and `b` agree.
fn str_eq(a: &str, b: &str) -> (r: bool)
    ensures
        r == (a@ == b@),
{
    let n = a.unicode_len();
    let m = b.unicode_len();
    if n != m {
        proof {
            assert(a@ != b@);
        }
        return false;
    }
    let mut i: usize = 0;
    while i < n
        invariant
            n == a@.len(),
            n == b@.len(),
            i <= n,
            forall|k: int| 0 <= k < i ==> a@[k] == b@[k],
        decreases n - i,
    {
        if a.get_char(i) != b.get_char(i) {
            proof {
                assert(a@[i as int] != b@[i as int]);
            }
            return false;
        }
        i += 1;
    }
    proof {
        assert(a@ =~= b@);
    }
    true
}

impl ServiceStatus {
    /// The status a string spells; `ParseError` for any string outside the
    /// six literals.
    pub fn from_str(s: &str) -> (r: Result<ServiceStatus, ParseError>)
        ensures
            match status_of(s@) {
                Some(st) => r == Ok::<ServiceStatus, ParseError>(st),
                None => r == Err::<ServiceStatus, ParseError>(ParseError),
            },
    {
        if str_eq(s, "New") {
            Ok(ServiceStatus::New)
        } else if str_eq(s, "Starting") {
            Ok(ServiceStatus::Starting)
        } else if str_eq(s, "Running") {
            Ok(ServiceStatus::Running)
        } else if str_eq(s, "Stopping") {
            Ok(ServiceStatus::Stopping)
        } else if str_eq(s, "Terminated") {
            Ok(ServiceStatus::Terminated)
        } else if str_eq(s, "Failed") {
            Ok(ServiceStatus::Failed)
        } else {
            Err(ParseError)
        }
    }
}

/// A newline stands at `i`.
pub open spec fn nl_at(s: Seq<char>, i: int) -> bool {
    0 <= i < s.len() && s[i] == '\n'
}

/// The first newline at or after `i`.
pub open spec fn find_nl_from(s: Seq<char>, i: nat) -> Option<int>
    decreases s.len() - i,
{
    if i >= s.len() {
        None
    } else if s[i as int] == '\n' {
        Some(i as int)
    } else {
        find_nl_from(s, i + 1)
    }
}

/// The separator ` => ` stands at `i`.
pub open spec fn sep_at(s: Seq<char>, i: int) -> bool {
    &&& 0 <= i
    &&& i + 4 <= s.len()
    &&& s[i] == ' '
    &&& s[i + 1] == '='
    &&& s[i + 2] == '>'
    &&& s[i + 3] == ' '
}

/// The first separator at or after `i`.
pub open spec fn find_sep_from(s: Seq<char>, i: nat) -> Option<int>
    decreases s.len() - i,
{
    if i + 4 > s.len() {
        None
    } else if sep_at(s, i as int) {
        Some(i as int)
    } else {
        find_sep_from(s, i + 1)
    }
}

/// A found newline lies in range.
proof fn lemma_find_nl_some(s: Seq<char>, i: nat, p: int)
    requires
        find_nl_from(s, i) == Some(p),
    ensures
        i <= p < s.len(),
        s[p] == '\n',
    decreases s.len() - i,
{
    if i < s.len() && s[i as int] != '\n' {
        lemma_find_nl_some(s, i + 1, p);
    }
}

/// One trailing carriage return is taken off a line that ended in `\r\n`.
pub open spec fn strip_cr(s: Seq<char>) -> Seq<char> {
    if s.len() > 0 && s.last() == '\r' {
        s.drop_last()
    } else {
        s
    }
}

/// The lines of `s`: split at each newline, a carriage return before the
/// newline taken off, and nothing after a final newline.
pub open spec fn split_lines(s: Seq<char>) -> Seq<Seq<char>>
    decreases s.len() via split_lines_decreases
{
    if s.len() == 0 {
        Seq::empty()
    } else {
        match find_nl_from(s, 0) {
            None => seq![s],
            Some(i) => seq![strip_cr(s.take(i))] + split_lines(s.skip(i + 1)),
        }
    }
}

#[via_fn]
proof fn split_lines_decreases(s: Seq<char>) {
    if s.len() > 0 {
        match find_nl_from(s, 0) {
            None => {},
            Some(i) => {
                lemma_find_nl_some(s, 0, i);
            },
        }
    }
}

/// What one line contributes: its name and status when it has the shape
/// `name => Status` — exactly one separator, and a status from the closed
/// vocabulary — and nothing otherwise.
pub open spec fn parse_line(line: Seq<char>) -> Option<(Seq<char>, ServiceStatus)> {
    match find_sep_from(line, 0) {
        None => None,
        Some(p) => {
            let rest = line.skip(p + 4);
            if find_sep_from(rest, 0) is Some {
                None
            } else {
                match status_of(rest) {
                    None => None,
                    Some(st) => Some((line.take(p), st)),
                }
            }
        },
    }
}

/// The lines folded over a mapping, in order, a later line overriding an
/// earlier one with the same name.
pub open spec fn apply_lines(
    lines: Seq<Seq<char>>,
    acc: Map<Seq<char>, ServiceStatus>,
) -> Map<Seq<char>, ServiceStatus>
    decreases lines.len(),
{
    if lines.len() == 0 {
        acc
    } else {
        let acc2 = match parse_line(lines.first()) {
            None => acc,
            Some(p) => acc.insert(p.0, p.1),
        };
        apply_lines(lines.drop_first(), acc2)
    }
}

/// The mapping the whole status text denotes: well-shaped lines only, a
/// later line winning on a repeated name.
pub open spec fn services_map(s: Seq<char>) -> Map<Seq<char>, ServiceStatus> {
    apply_lines(split_lines(s), Map::empty())
}

/// The view of stored name/status pairs.
pub open spec fn status_pairs_view(s: Seq<(String, ServiceStatus)>) -> Seq<
    (Seq<char>, ServiceStatus),
> {
    s.map_values(|p: (String, ServiceStatus)| (p.0@, p.1))
}

/// The first newline of `s` at or after `from`, as an index.
fn find_nl(s: &str, from: usize) -> (r: Option<usize>)
    requires
        from <= s@.len(),
    ensures
        match r {
            Some(p) => from <= p && p < s@.len() && find_nl_from(s@, from as nat) == Some(p as int),
            None => find_nl_from(s@, from as nat) is None,
        },
{
    let n = s.unicode_len();
    let mut i = from;
    while i < n
        invariant
            n == s@.len(),
            from <= i <= n,
            find_nl_from(s@, from as nat) == find_nl_from(s@, i as nat),
        decreases n - i,
    {
        if s.get_char(i) == '\n' {
            proof {
                assert(find_nl_from(s@, i as nat) == Some(i as int));
            }
            return Some(i);
        }
        proof {
            assert(find_nl_from(s@, i as nat) == find_nl_from(s@, (i + 1) as nat));
        }
        i += 1;
    }
    None
}

/// The first separator of `s` at or after `from`, as an index.
fn find_sep(s: &str, from: usize) -> (r: Option<usize>)
    requires
        from <= s@.len(),
    ensures
        match r {
            Some(p) => from <= p && p + 4 <= s@.len() && find_sep_from(s@, from as nat) == Some(
                p as int,
            ),
            None => find_sep_from(s@, from as nat) is None,
        },
{
    let n = s.unicode_len();
    let mut i = from;
    while n - i >= 4
        invariant
            n == s@.len(),
            from <= i <= n,
            find_sep_from(s@, from as nat) == find_sep_from(s@, i as nat),
        decreases n - i,
    {
        if s.get_char(i) == ' ' && s.get_char(i + 1) == '=' && s.get_char(i + 2) == '>' && s.get_char(
            i + 3,
        ) == ' ' {
            proof {
                assert(sep_at(s@, i as int));
                assert(find_sep_from(s@, i as nat) == Some(i as int));
            }
            return Some(i);
        }
        proof {
            assert(!sep_at(s@, i as int));
            assert(find_sep_from(s@, i as nat) == find_sep_from(s@, (i + 1) as nat));
        }
        i += 1;
    }
    None
}

/// Records `name`'s status, overriding an earlier one.
fn set_status(out: &mut Vec<(String, ServiceStatus)>, name: String, st: ServiceStatus)
    requires
        unique_keys(status_pairs_view(old(out)@)),
    ensures
        unique_keys(status_pairs_view(final(out)@)),
        assoc_map(status_pairs_view(final(out)@)) == assoc_map(
            status_pairs_view(old(out)@),
        ).insert(name@, st),
{
    let ghost before = status_pairs_view(out@);
    let found = find_key_idx(out, &name);
    match found {
        Some(j) => {
            proof {
                assert(before[j as int].0 == name@);
            }
            let _ = out.remove(j);
            proof {
                assert(status_pairs_view(out@) =~= before.remove(j as int));
                lemma_remove_key_at(before, name@, j as int);
            }
        },
        None => {
            proof {
                assert(!key_present(before, name@)) by {
                    if key_present(before, name@) {
                        let j = choose|j: int| 0 <= j < before.len() && before[j].0 == name@;
                        assert(out@[j].0@ != name@);
                    }
                }
                lemma_remove_key_none(before, name@);
            }
        },
    }
    out.push((name, st));
    proof {
        assert(status_pairs_view(out@) =~= remove_key(before, name@).push((name@, st)));
        assert(status_pairs_view(out@) == assoc_set(before, name@, st));
        lemma_assoc_set(before, name@, st);
    }
}

/// Reads the status listing: one `(name, status)` pair for each line of the
/// shape `name => Status`, any other line dropped, a later line winning on a
/// repeated name. The result carries each name once and denotes exactly the
/// mapping the text does.
pub fn parse_services(text: &str) -> (r: Vec<(String, ServiceStatus)>)
    ensures
        unique_keys(status_pairs_view(r@)),
        assoc_map(status_pairs_view(r@)) == services_map(text@),
{
    let mut out: Vec<(String, ServiceStatus)> = Vec::new();
    let n = text.unicode_len();
    let mut pos: usize = 0;
    proof {
        assert(status_pairs_view(out@) =~= Seq::<(Seq<char>, ServiceStatus)>::empty());
        assert(assoc_map(status_pairs_view(out@)) =~= Map::<Seq<char>, ServiceStatus>::empty());
        assert(text@.skip(0) =~= text@);
    }
    while pos < n
        invariant
            n == text@.len(),
            pos <= n,
            unique_keys(status_pairs_view(out@)),
            apply_lines(split_lines(text@.skip(pos as int)), assoc_map(status_pairs_view(out@)))
                == services_map(text@),
        decreases n - pos,
    {
        let ghost rem = text@.skip(pos as int);
        let ghost acc = assoc_map(status_pairs_view(out@));
        let rem_str = text.substring_char(pos, n);
        let rem_len = n - pos;
        proof {
            assert(rem_str@ == rem);
            assert(rem.len() == rem_len);
        }
        // Cut the current line out of the remainder.
        let nl = find_nl(rem_str, 0);
        let (line_end, next_pos): (usize, usize) = match nl {
            Some(j) => {
                let e = if j > 0 && rem_str.get_char(j - 1) == '\r' {
                    j - 1
                } else {
                    j
                };
                (e, pos + j + 1)
            },
            None => (rem_len, n),
        };
        let line = rem_str.substring_char(0, line_end);
        proof {
            match nl {
                Some(j) => {
                    assert(split_lines(rem) == seq![strip_cr(rem.take(j as int))] + split_lines(
                        rem.skip(j + 1),
                    ));
                    assert(line@ =~= strip_cr(rem.take(j as int)));
                    assert(rem.skip(j + 1) =~= text@.skip(next_pos as int));
                },
                None => {
                    assert(split_lines(rem) == seq![rem]);
                    assert(line@ =~= rem);
                    assert(text@.skip(n as int) =~= Seq::<char>::empty());
                },
            }
            assert(split_lines(rem).first() == line@);
            assert(split_lines(rem).drop_first() =~= split_lines(text@.skip(next_pos as int)));
        }
        // Parse the line and record a well-shaped one.
        let line_len = line.unicode_len();
        match find_sep(line, 0) {
            None => {
                proof {
                    assert(parse_line(line@) is None);
                }
            },
            Some(p) => {
                let rest = line.substring_char(p + 4, line_len);
                proof {
                    assert(rest@ =~= line@.skip(p + 4));
                }
                match find_sep(rest, 0) {
                    Some(_) => {
                        proof {
                            assert(parse_line(line@) is None);
                        }
                    },
                    None => {
                        match ServiceStatus::from_str(rest) {
                            Err(_) => {
                                proof {
                                    assert(status_of(rest@) is None);
                                    assert(parse_line(line@) is None);
                                }
                            },
                            Ok(st) => {
                                let name = String::from_str(line.substring_char(0, p));
                                proof {
                                    assert(status_of(rest@) == Some(st));
                                    assert(name@ =~= line@.take(p as int));
                                    assert(parse_line(line@) == Some((name@, st)));
                                }
                                set_status(&mut out, name, st);
                            },
                        }
                    },
                }
            },
        }
        proof {
            assert(apply_lines(split_lines(text@.skip(next_pos as int)), assoc_map(
                status_pairs_view(out@),
            )) == services_map(text@)) by {
                assert(apply_lines(split_lines(rem), acc) == services_map(text@));
            }
        }
        pos = next_pos;
    }
    proof {
        assert(text@.skip(n as int) =~= Seq::<char>::empty());
        assert(split_lines(text@.skip(pos as int)) =~= Seq::<Seq<char>>::empty());
    }
    out
}

} // verus!
