//! Snapshot history: the `ROLLBACK` and `FORWARD` stacks (one snapshot name per line) and the
//! `HEAD` pointer.
use vstd::prelude::*;
use crate::text::{chars_of, decimal, push_chars, push_decimal, str_eq, string_from_chars, trim, trimmed};

verus! {

/// `l` without one trailing carriage return.
pub open spec fn strip_cr(l: Seq<char>) -> Seq<char> {
    if l.len() > 0 && l.last() == '\r' {
        l.drop_last()
    } else {
        l
    }
}

/// Reading `s` line by line: the non-empty lines completed so far (each ended by `'\n'`,
/// a `'\r'` before the `'\n'` removed) and the line still open.
pub open spec fn line_scan(s: Seq<char>) -> (Seq<Seq<char>>, Seq<char>)
    decreases s.len(),
{
    if s.len() == 0 {
        (Seq::empty(), Seq::empty())
    } else {
        let (done, open) = line_scan(s.drop_last());
        let c = s.last();
        if c == '\n' {
            let l = strip_cr(open);
            (if l.len() > 0 { done.push(l) } else { done }, Seq::empty())
        } else {
            (done, open.push(c))
        }
    }
}

/// The entries of a stack file: its non-empty lines, in order (as `str::lines` splits them).
pub open spec fn stack_entries(s: Seq<char>) -> Seq<Seq<char>> {
    let (done, open) = line_scan(s);
    if open.len() > 0 {
        done.push(open)
    } else {
        done
    }
}

/// The text of a stack file holding `entries`: each entry followed by `'\n'`.
pub open spec fn stack_text(entries: Seq<Seq<char>>) -> Seq<char>
    decreases entries.len(),
{
    if entries.len() == 0 {
        Seq::empty()
    } else {
        stack_text(entries.drop_last()) + entries.last().push('\n')
    }
}

/// An entry that a stack file can hold as one line and give back unchanged: not empty, no
/// line break, and no carriage return at its end.
pub open spec fn storable_entry(e: Seq<char>) -> bool {
    e.len() > 0 && !e.contains('\n') && e.last() != '\r'
}

proof fn lemma_scan_open_line(t: Seq<char>, u: Seq<char>)
    requires
        line_scan(t).1 == Seq::<char>::empty(),
        !u.contains('\n'),
    ensures
        line_scan(t + u) == (line_scan(t).0, u),
    decreases u.len(),
{
    if u.len() == 0 {
        assert(t + u =~= t);
    } else {
        assert((t + u).drop_last() =~= t + u.drop_last());
        assert(!u.drop_last().contains('\n')) by {
            if u.drop_last().contains('\n') {
                let i = choose|i: int| 0 <= i < u.drop_last().len() && u.drop_last()[i] == '\n';
                assert(u[i] == '\n');
            }
        }
        lemma_scan_open_line(t, u.drop_last());
        assert(u.drop_last().push(u.last()) =~= u);
    }
}

proof fn lemma_scan_closed_line(t: Seq<char>, e: Seq<char>)
    requires
        line_scan(t).1 == Seq::<char>::empty(),
        storable_entry(e),
    ensures
        line_scan(t + e.push('\n')) == (line_scan(t).0.push(e), Seq::<char>::empty()),
{
    lemma_scan_open_line(t, e);
    assert((t + e.push('\n')).drop_last() =~= t + e);
    assert((t + e.push('\n')).last() == '\n');
}

/// Appending an entry and a line break to a stack file whose text is empty or ends with a line
/// break pushes that entry on top of the stack (what `writeln!` on the file does).
pub proof fn law_push_entry(t: Seq<char>, e: Seq<char>)
    requires
        t.len() == 0 || t.last() == '\n',
        storable_entry(e),
    ensures
        stack_entries(t + e.push('\n')) == stack_entries(t).push(e),
{
    if t.len() > 0 {
        assert(line_scan(t).1 == Seq::<char>::empty());
    }
    lemma_scan_closed_line(t, e);
}

/// Reading back the text written for storable entries gives those entries, in order.
pub proof fn law_stack_text_round_trip(es: Seq<Seq<char>>)
    requires
        forall|i: int| 0 <= i < es.len() ==> storable_entry(#[trigger] es[i]),
    ensures
        stack_entries(stack_text(es)) == es,
        line_scan(stack_text(es)) == (es, Seq::<char>::empty()),
    decreases es.len(),
{
    if es.len() == 0 {
        assert(line_scan(Seq::<char>::empty()) == (Seq::<Seq<char>>::empty(), Seq::<char>::empty()));
    } else {
        let front = es.drop_last();
        assert forall|i: int| 0 <= i < front.len() implies storable_entry(#[trigger] front[i]) by {
            assert(front[i] == es[i]);
        }
        law_stack_text_round_trip(front);
        assert(storable_entry(es[es.len() - 1]));
        lemma_scan_closed_line(stack_text(front), es.last());
        assert(front.push(es.last()) =~= es);
    }
}

/// After a pop, the rewritten stack file reads back as the entries that were below the top,
/// provided every entry is storable.
pub proof fn law_pop_leaves_rest(content: Seq<char>)
    requires
        stack_entries(content).len() > 0,
        forall|i: int| 0 <= i < stack_entries(content).len() ==> storable_entry(#[trigger] stack_entries(content)[i]),
    ensures
        stack_entries(stack_text(stack_entries(content).drop_last())) == stack_entries(content).drop_last(),
{
    let es = stack_entries(content);
    let rest = es.drop_last();
    assert forall|i: int| 0 <= i < rest.len() implies storable_entry(#[trigger] rest[i]) by {
        assert(rest[i] == es[i]);
    }
    law_stack_text_round_trip(rest);
}

/// What popping the top of a stack file gives.
#[derive(Debug)]
pub enum StackPop {
    /// The stack holds no entry.
    Empty,
    /// `top` was the last entry; `rest` is the new text of the file, or `None` when no entry
    /// remains and the file is to be removed.
    Popped { top: String, rest: Option<String> },
}

/// Pops the last entry (most recent snapshot) of a stack file's text.
pub fn pop_stack(content: &str) -> (r: StackPop)
    ensures
        ({
            let es = stack_entries(content@);
            if es.len() == 0 {
                r is Empty
            } else {
                &&& r matches StackPop::Popped { top, rest }
                &&& top@ == es.last()
                &&& (es.len() == 1 ==> rest is None)
                &&& (es.len() > 1 ==> (rest matches Some(t) && t@ == stack_text(es.drop_last())))
            }
        }),
{
    let cs = chars_of(content);
    let ghost s = cs@;
    let mut done: Vec<Vec<char>> = Vec::new();
    let mut open: Vec<char> = Vec::new();
    let mut i: usize = 0;
    proof {
        assert(s.take(0) =~= Seq::<char>::empty());
        assert(done.deep_view() =~= Seq::<Seq<char>>::empty());
    }
    while i < cs.len()
        invariant
            i <= s.len(),
            s == cs@,
            (done.deep_view(), open@) == line_scan(s.take(i as int)),
        decreases s.len() - i,
    {
        let c = cs[i];
        proof {
            assert(s.take(i + 1).drop_last() =~= s.take(i as int));
        }
        if c == '\n' {
            if open.len() > 0 && open[open.len() - 1] == '\r' {
                open.pop();
            }
            if open.len() > 0 {
                let ghost prev = done.deep_view();
                let ghost l = open@;
                proof {
                    assert(open.deep_view() =~= l);
                }
                done.push(open);
                proof {
                    assert(done.deep_view() =~= prev.push(l));
                }
            }
            open = Vec::new();
            proof {
                assert(open@ =~= Seq::<char>::empty());
            }
        } else {
            open.push(c);
        }
        i += 1;
    }
    proof {
        assert(s.take(s.len() as int) =~= s);
    }
    if open.len() > 0 {
        let ghost prev = done.deep_view();
        let ghost l = open@;
        proof {
            assert(open.deep_view() =~= l);
        }
        done.push(open);
        proof {
            assert(done.deep_view() =~= prev.push(l));
        }
    }
    let ghost es = done.deep_view();
    match done.pop() {
        None => StackPop::Empty,
        Some(top_chars) => {
            proof {
                assert(done.deep_view() =~= es.drop_last());
            }
            let top = string_from_chars(top_chars.as_slice());
            if done.len() == 0 {
                StackPop::Popped { top, rest: None }
            } else {
                let ghost rest_es = done.deep_view();
                let mut text: Vec<char> = Vec::new();
                let mut j: usize = 0;
                proof {
                    assert(rest_es.take(0) =~= Seq::<Seq<char>>::empty());
                    assert(text@ =~= stack_text(rest_es.take(0)));
                }
                while j < done.len()
                    invariant
                        j <= done@.len(),
                        rest_es == done.deep_view(),
                        text@ == stack_text(rest_es.take(j as int)),
                    decreases done@.len() - j,
                {
                    let line = &done[j];
                    let ghost before = text@;
                    let mut k: usize = 0;
                    while k < line.len()
                        invariant
                            k <= line@.len(),
                            text@ == before + line@.take(k as int),
                        decreases line@.len() - k,
                    {
                        text.push(line[k]);
                        k += 1;
                        proof {
                            assert(text@ =~= before + line@.take(k as int));
                        }
                    }
                    text.push('\n');
                    proof {
                        assert(rest_es.take(j + 1).drop_last() =~= rest_es.take(j as int));
                        assert(rest_es[j as int] == line@);
                        assert(line@.take(line@.len() as int) =~= line@);
                        assert(text@ =~= before + line@.push('\n'));
                    }
                    j += 1;
                }
                proof {
                    assert(rest_es.take(rest_es.len() as int) =~= rest_es);
                }
                StackPop::Popped { top, rest: Some(string_from_chars(text.as_slice())) }
            }
        },
    }
}

/// The snapshot name that `HEAD` holds (its text without surrounding white space), to be
/// pushed onto a stack before `HEAD` moves; `None` when `HEAD` is blank or already names
/// `new_head`.
pub fn head_to_archive(head_content: &str, new_head: Option<&str>) -> (r: Option<String>)
    ensures
        match r {
            Some(t) => t@ == trimmed(head_content@) && t@.len() > 0
                && (new_head matches Some(n) ==> t@ != n@),
            None => trimmed(head_content@).len() == 0
                || (new_head matches Some(n) && trimmed(head_content@) == n@),
        },
{
    let t = trim(head_content);
    if t.as_str().is_empty() {
        return None;
    }
    match new_head {
        Some(n) => {
            if str_eq(t.as_str(), n) {
                None
            } else {
                Some(t)
            }
        },
        None => Some(t),
    }
}

/// The name of the snapshot archived when environment `env` is saved at `timestamp` (seconds
/// since the Unix epoch): `{env}_{timestamp}.ji`; `None` for the `seeds` environment, whose
/// saves keep no history.
pub fn snapshot_name(env: &str, timestamp: u64) -> (r: Option<String>)
    ensures
        env@ == "seeds"@ ==> r is None,
        env@ != "seeds"@ ==> (r matches Some(n) && n@ == env@ + seq!['_'] + decimal(timestamp as nat) + ".ji"@),
{
    if str_eq(env, "seeds") {
        return None;
    }
    let mut out = chars_of(env);
    out.push('_');
    push_decimal(&mut out, timestamp);
    push_chars(&mut out, ".ji");
    Some(string_from_chars(out.as_slice()))
}

} // verus!
