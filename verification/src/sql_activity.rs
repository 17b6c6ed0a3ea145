//! Pending and committed SQL shown in the SQL activity view.
use vstd::prelude::*;
use std::collections::VecDeque;
use crate::text::{
    blank, chars_of, contains_seq, find_seq_exec, find_seq_from, is_blank, is_ws,
    lemma_trailing_ws_bound, lemma_trailing_ws_exact, occurs_at, push_chars, push_str, slice_vec,
    string_of, trailing_ws, trim_end, trim_end_chars,
};

verus! {

/// At most this many committed batches are kept.
pub const MAX_COMMITTED_BATCHES: usize = 50;

/// Shown when no transaction is open.
pub const EMPTY_NO_OPEN_TXN: &'static str = "No open transaction";

/// Shown when a transaction is open but nothing was recorded yet.
pub const EMPTY_OPEN_TXN_NO_STMTS: &'static str = "Open transaction — no recorded statements yet";

/// Shown when no batch was committed yet.
pub const EMPTY_NO_COMMITTED: &'static str = "No committed batches in this tab yet";

/// What a statement may do, as the SQL classifier reports it.
#[derive(Clone, Copy, Debug, Eq, PartialEq, Structural)]
pub enum SqlRisk {
    ReadOnly,
    Dml,
    Ddl,
    TransactionControl,
    Unknown,
}

/// A committed batch of SQL: when it was committed (milliseconds since the Unix epoch), its
/// text, its statement count and how long it took (milliseconds).
#[derive(Clone, Debug)]
pub struct CommittedSqlBatch {
    pub timestamp_millis: i64,
    pub sql: String,
    pub statement_count: usize,
    pub elapsed_millis: Option<u128>,
}

/// Whether some risk is neither read-only nor transaction control.
pub open spec fn records_pending(risks: Seq<SqlRisk>) -> bool {
    exists|i: int| 0 <= i < risks.len() && !(risks[i] is ReadOnly) && !(risks[i] is TransactionControl)
}

/// Whether executed SQL with these risks belongs in the pending transaction text.
pub fn should_record_pending_sql(risks: &[SqlRisk]) -> (r: bool)
    ensures
        r == records_pending(risks@),
{
    let mut i: usize = 0;
    while i < risks.len()
        invariant
            i <= risks.len(),
            forall|k: int| 0 <= k < i ==> (risks@[k] is ReadOnly) || (risks@[k] is TransactionControl),
        decreases risks.len() - i,
    {
        match risks[i] {
            SqlRisk::ReadOnly | SqlRisk::TransactionControl => {},
            _ => {
                assert(!(risks@[i as int] is ReadOnly) && !(risks@[i as int] is TransactionControl));
                return true;
            },
        }
        i += 1;
    }
    false
}

/// The pending text after appending a statement: trailing whitespace dropped, blank statements
/// ignored, statements separated by a blank line.
pub open spec fn appended_pending(pending: Seq<char>, sql: Seq<char>) -> Seq<char> {
    let s = trim_end(sql);
    if s.len() == 0 {
        pending
    } else if pending.len() == 0 {
        s
    } else {
        pending + seq!['\n', '\n'] + s
    }
}

/// Appends a statement to the pending text (see [`appended_pending`]).
pub fn append_pending_sql(pending: &mut String, sql: &str)
    ensures
        final(pending)@ == appended_pending(old(pending)@, sql@),
{
    let cs = chars_of(sql);
    let trimmed = trim_end_chars(&cs);
    if trimmed.len() == 0 {
        return;
    }
    let n = crate::text::char_count(pending.as_str());
    if n != 0 {
        pending.push('\n');
        pending.push('\n');
    }
    push_chars(pending, &trimmed);
    assert(pending@ =~= appended_pending(old(pending)@, sql@));
}

/// The parts of a text between `"\n\n"` separators.
pub open spec fn blank_line_parts(s: Seq<char>) -> Seq<Seq<char>>
    decreases s.len(),
{
    let i = find_seq_from(s, seq!['\n', '\n'], 0);
    if i >= s.len() {
        seq![s]
    } else {
        proof {
            lemma_find_seq_bounds(s, seq!['\n', '\n'], 0);
        }
        seq![s.take(i)] + blank_line_parts(s.skip(i + 2))
    }
}

/// Number of non-blank parts.
pub open spec fn non_blank_count(parts: Seq<Seq<char>>) -> nat
    decreases parts.len(),
{
    if parts.len() == 0 {
        0
    } else {
        non_blank_count(parts.drop_last()) + if blank(parts.last()) {
            0nat
        } else {
            1nat
        }
    }
}

/// Statements in a pending text: its non-blank blank-line-separated parts, at least one when
/// the text is not blank, none when it is.
pub open spec fn pending_statement_count(pending: Seq<char>) -> nat {
    if blank(pending) {
        0
    } else {
        let c = non_blank_count(blank_line_parts(pending));
        if c >= 1 {
            c
        } else {
            1
        }
    }
}

pub proof fn lemma_find_seq_bounds(s: Seq<char>, needle: Seq<char>, i: int)
    requires
        0 <= i,
    ensures
        find_seq_from(s, needle, i) <= s.len(),
        find_seq_from(s, needle, i) < s.len() ==> i <= find_seq_from(s, needle, i)
            && find_seq_from(s, needle, i) + needle.len() <= s.len(),
    decreases s.len() - i,
{
    if i < s.len() && i + needle.len() <= s.len() && !crate::text::occurs_at(s, needle, i) {
        lemma_find_seq_bounds(s, needle, i + 1);
    }
}

proof fn lemma_non_blank_count_bound(parts: Seq<Seq<char>>)
    ensures
        non_blank_count(parts) <= parts.len(),
    decreases parts.len(),
{
    if parts.len() > 0 {
        lemma_non_blank_count_bound(parts.drop_last());
    }
}

/// Counts the statements of a pending text (see [`pending_statement_count`]).
pub fn statement_count_in_pending(pending: &str) -> (r: usize)
    ensures
        r == pending_statement_count(pending@),
{
    if is_blank(pending) {
        return 0;
    }
    let sep: Vec<char> = vec!['\n', '\n'];
    assert(sep@ =~= seq!['\n', '\n']);
    let mut rest = chars_of(pending);
    let n0 = rest.len();
    let mut count: usize = 0;
    let ghost total = pending@;
    loop
        invariant
            sep@ == seq!['\n', '\n'],
            count + non_blank_count(blank_line_parts(rest@)) == non_blank_count(blank_line_parts(total)),
            total.len() <= usize::MAX,
            total == pending@,
            !blank(total),
            count + rest@.len() <= total.len(),
        decreases rest@.len(),
    {
        let i = find_seq_exec(&rest, &sep);
        proof {
            lemma_find_seq_bounds(rest@, sep@, 0);
        }
        if i >= rest.len() {
            let part_blank = is_blank(&string_of(&rest));
            assert(blank_line_parts(rest@) == seq![rest@]);
            proof {
                lemma_count_head(rest@, Seq::empty());
                assert(seq![rest@] + Seq::<Seq<char>>::empty() =~= seq![rest@]);
            }
            if !part_blank {
                count += 1;
            }
            let c = if count >= 1 {
                count
            } else {
                1
            };
            return c;
        }
        let part = slice_vec(&rest, 0, i);
        let tail = slice_vec(&rest, i + 2, rest.len());
        assert(part@ =~= rest@.take(i as int));
        assert(tail@ =~= rest@.skip(i + 2));
        proof {
            lemma_count_head(rest@.take(i as int), blank_line_parts(tail@));
        }
        if !is_blank(&string_of(&part)) {
            count += 1;
        }
        rest = tail;
    }
}

proof fn lemma_count_head(head: Seq<char>, parts: Seq<Seq<char>>)
    ensures
        non_blank_count(seq![head] + parts) == (if blank(head) {
            0nat
        } else {
            1nat
        }) + non_blank_count(parts),
    decreases parts.len(),
{
    let all = seq![head] + parts;
    if parts.len() == 0 {
        assert(all.drop_last() =~= Seq::<Seq<char>>::empty());
        assert(all.last() == head);
        assert(non_blank_count(Seq::<Seq<char>>::empty()) == 0);
    } else {
        assert(all.drop_last() =~= seq![head] + parts.drop_last());
        assert(all.last() == parts.last());
        lemma_count_head(head, parts.drop_last());
    }
}

/// The first occurrence of a needle at or after `i` is the `k` where it occurs with none before.
proof fn lemma_find_first(h: Seq<char>, needle: Seq<char>, i: int, k: int)
    requires
        0 <= i <= k,
        needle.len() > 0,
        occurs_at(h, needle, k),
        forall|j: int| i <= j < k ==> !#[trigger] occurs_at(h, needle, j),
    ensures
        find_seq_from(h, needle, i) == k,
    decreases k - i,
{
    if i < k {
        assert(!occurs_at(h, needle, i));
        lemma_find_first(h, needle, i + 1, k);
    }
}

/// What a search for a needle finds: an occurrence, with none before it.
proof fn lemma_find_props(h: Seq<char>, needle: Seq<char>, i: int)
    requires
        0 <= i,
        needle.len() > 0,
    ensures
        find_seq_from(h, needle, i) < h.len() ==> i <= find_seq_from(h, needle, i) && occurs_at(
            h,
            needle,
            find_seq_from(h, needle, i),
        ),
        forall|j: int| i <= j < find_seq_from(h, needle, i) ==> !#[trigger] occurs_at(h, needle, j),
    decreases h.len() - i,
{
    if i < h.len() && i + needle.len() <= h.len() && !occurs_at(h, needle, i) {
        lemma_find_props(h, needle, i + 1);
    }
}

/// A text without the separator is one part.
proof fn lemma_single_part(s: Seq<char>)
    requires
        !contains_seq(s, seq!['\n', '\n']),
    ensures
        blank_line_parts(s) == seq![s],
{
    lemma_find_props(s, seq!['\n', '\n'], 0);
    let i = find_seq_from(s, seq!['\n', '\n'], 0);
    if i < s.len() {
        assert(occurs_at(s, seq!['\n', '\n'], i));
        assert(contains_seq(s, seq!['\n', '\n']));
    }
}

/// Joining a text that does not end in a line break to a separator-free part adds that part.
proof fn lemma_parts_join(p: Seq<char>, s: Seq<char>)
    requires
        p.len() > 0,
        p.last() != '\n',
        !contains_seq(s, seq!['\n', '\n']),
    ensures
        blank_line_parts(p + seq!['\n', '\n'] + s) == blank_line_parts(p).push(s),
    decreases p.len(),
{
    let nn = seq!['\n', '\n'];
    let q = p + nn + s;
    lemma_find_props(p, nn, 0);
    let i = find_seq_from(p, nn, 0);
    if i >= p.len() {
        assert(q.subrange(p.len() as int, p.len() as int + 2) =~= nn);
        assert(occurs_at(q, nn, p.len() as int));
        assert forall|j: int| 0 <= j < p.len() implies !#[trigger] occurs_at(q, nn, j) by {
            if occurs_at(q, nn, j) {
                if j + 2 <= p.len() {
                    assert(p.subrange(j, j + 2) =~= q.subrange(j, j + 2));
                    assert(occurs_at(p, nn, j));
                } else {
                    assert(q.subrange(j, j + 2)[0] == q[j]);
                    assert(q[j] == p.last());
                }
            }
        }
        lemma_find_first(q, nn, 0, p.len() as int);
        assert(q.take(p.len() as int) =~= p);
        assert(q.skip(p.len() as int + 2) =~= s);
        lemma_single_part(s);
        assert(!contains_seq(p, nn)) by {
            if contains_seq(p, nn) {
                let j = choose|j: int| occurs_at(p, nn, j);
                assert(j + 2 <= p.len());
            }
        }
        lemma_single_part(p);
        assert(blank_line_parts(q) =~= seq![p] + seq![s]);
    } else {
        assert(occurs_at(p, nn, i));
        assert(q.subrange(i, i + 2) =~= p.subrange(i, i + 2));
        assert(occurs_at(q, nn, i));
        assert forall|j: int| 0 <= j < i implies !#[trigger] occurs_at(q, nn, j) by {
            if occurs_at(q, nn, j) {
                assert(p.subrange(j, j + 2) =~= q.subrange(j, j + 2));
                assert(occurs_at(p, nn, j));
            }
        }
        lemma_find_first(q, nn, 0, i);
        let rest = p.skip(i + 2);
        assert(p[i + 1] == p.subrange(i, i + 2)[1]);
        if rest.len() == 0 {
            assert(p.last() == p[i + 1]);
        }
        assert(rest.last() == p.last());
        lemma_parts_join(rest, s);
        assert(q.take(i) =~= p.take(i));
        assert(q.skip(i + 2) =~= rest + nn + s);
        assert(blank_line_parts(q) =~= blank_line_parts(p).push(s));
    }
}

/// A text that is not blank holds at least one non-blank part.
proof fn lemma_nonblank_has_part(p: Seq<char>)
    requires
        !blank(p),
    ensures
        non_blank_count(blank_line_parts(p)) >= 1,
    decreases p.len(),
{
    let nn = seq!['\n', '\n'];
    lemma_find_props(p, nn, 0);
    let i = find_seq_from(p, nn, 0);
    let m = choose|m: int| 0 <= m < p.len() && !is_ws(#[trigger] p[m]);
    if i >= p.len() {
        lemma_count_head(p, Seq::empty());
        assert(seq![p] + Seq::<Seq<char>>::empty() =~= seq![p]);
    } else {
        lemma_count_head(p.take(i), blank_line_parts(p.skip(i + 2)));
        assert(p[i] == p.subrange(i, i + 2)[0]);
        assert(p[i + 1] == p.subrange(i, i + 2)[1]);
        if m < i {
            assert(p.take(i)[m] == p[m]);
        } else {
            assert(m >= i + 2);
            assert(p.skip(i + 2)[m - i - 2] == p[m]);
            lemma_nonblank_has_part(p.skip(i + 2));
        }
    }
}

/// Appending a statement that is not blank and holds no blank line to a pending text without
/// trailing whitespace (as every pending text built by appending is) adds exactly one to the
/// statement count, and the result again has no trailing whitespace.
pub proof fn law_append_adds_one_statement(pending: Seq<char>, sql: Seq<char>)
    requires
        trim_end(pending) == pending,
        trim_end(sql).len() > 0,
        !contains_seq(trim_end(sql), seq!['\n', '\n']),
    ensures
        pending_statement_count(appended_pending(pending, sql)) == pending_statement_count(pending)
            + 1,
        trim_end(appended_pending(pending, sql)) == appended_pending(pending, sql),
{
    let s = trim_end(sql);
    let nn = seq!['\n', '\n'];
    lemma_trailing_ws_bound(sql);
    assert(!is_ws(s.last()));
    assert(!blank(s));
    lemma_trailing_ws_bound(pending);
    lemma_single_part(s);
    lemma_count_head(s, Seq::empty());
    assert(seq![s] + Seq::<Seq<char>>::empty() =~= seq![s]);
    if pending.len() == 0 {
        assert(blank(pending));
        lemma_trailing_ws_exact(s, 0);
    } else {
        assert(trailing_ws(pending) == 0);
        assert(!is_ws(pending.last()));
        assert(!blank(pending));
        let q = pending + nn + s;
        lemma_parts_join(pending, s);
        assert(blank_line_parts(q).drop_last() =~= blank_line_parts(pending));
        lemma_nonblank_has_part(pending);
        assert(q.last() == s.last());
        assert(!blank(q));
        lemma_trailing_ws_exact(q, 0);
    }
}

/// The pending text built by appending statements one after another to an empty text.
pub open spec fn pending_of(statements: Seq<Seq<char>>) -> Seq<char>
    decreases statements.len(),
{
    if statements.len() == 0 {
        Seq::empty()
    } else {
        appended_pending(pending_of(statements.drop_last()), statements.last())
    }
}

/// Appending `k` statements, none blank and none holding a blank line, to an empty pending text
/// gives a text that counts exactly `k` statements.
pub proof fn law_appended_statements_are_counted(statements: Seq<Seq<char>>)
    requires
        forall|i: int|
            0 <= i < statements.len() ==> trim_end(#[trigger] statements[i]).len() > 0
                && !contains_seq(trim_end(statements[i]), seq!['\n', '\n']),
    ensures
        pending_statement_count(pending_of(statements)) == statements.len(),
        trim_end(pending_of(statements)) == pending_of(statements),
    decreases statements.len(),
{
    if statements.len() == 0 {
        let e = Seq::<char>::empty();
        assert(blank(e));
        lemma_trailing_ws_exact(e, 0);
        assert(trim_end(e) =~= e);
    } else {
        let rest = statements.drop_last();
        assert forall|i: int| 0 <= i < rest.len() implies trim_end(#[trigger] rest[i]).len() > 0
            && !contains_seq(trim_end(rest[i]), seq!['\n', '\n']) by {
            assert(rest[i] == statements[i]);
        }
        law_appended_statements_are_counted(rest);
        let last = statements.last();
        assert(last == statements[statements.len() - 1]);
        law_append_adds_one_statement(pending_of(rest), last);
    }
}

/// The committed batches after adding one: newest first, at most [`MAX_COMMITTED_BATCHES`].
pub open spec fn pushed_batches(batches: Seq<CommittedSqlBatch>, batch: CommittedSqlBatch) -> Seq<CommittedSqlBatch> {
    let all = seq![batch] + batches;
    if all.len() > 50 {
        all.take(50)
    } else {
        all
    }
}

/// Adds a committed batch at the front, dropping the oldest beyond the cap.
pub fn push_committed_batch(batches: &mut VecDeque<CommittedSqlBatch>, batch: CommittedSqlBatch)
    ensures
        final(batches)@ == pushed_batches(old(batches)@, batch),
{
    let ghost all = seq![batch] + old(batches)@;
    batches.push_front(batch);
    assert(batches@ =~= all.take(all.len() as int));
    while batches.len() > MAX_COMMITTED_BATCHES
        invariant
            batches@ == all.take(batches@.len() as int),
            batches@.len() <= all.len(),
            all.len() > 50 ==> batches@.len() >= 50,
            all.len() <= 50 ==> batches@.len() == all.len(),
        decreases batches@.len(),
    {
        let ghost before = batches@;
        let _ = batches.pop_back();
        assert(batches@ =~= all.take(batches@.len() as int));
    }
    assert(batches@ =~= pushed_batches(old(batches)@, batch));
}

/// Forgets the pending text.
pub fn clear_pending_sql(pending: &mut String)
    ensures
        final(pending)@ == Seq::<char>::empty(),
{
    *pending = String::new();
}

} // verus!
