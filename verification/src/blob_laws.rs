//! Laws of multipart uploads: the parts make up the file, what was sent before
//! is not sent again, and a completed upload lists every part once.

use vstd::prelude::*;

use crate::backend::wire::PartView;
use crate::blob::{
    due_part, has_part, insert_part, lemma_parts, missing_up_to, part_count, part_len, part_offset,
    range_of, sendable, sorted_parts, taken_up, with_part, with_remote, PartRange, UploadView,
    CHUNK_SIZE,
};
use crate::db::blobs::BlobView;

verus! {

/// The parts of a file lie end to end, from its beginning to its end, and all
/// but the last have the full size.
pub proof fn law_parts_lie_end_to_end(size: nat, number: int)
    requires
        1 <= number <= part_count(size),
    ensures
        part_offset(1) == 0,
        0 < part_len(number, size) <= CHUNK_SIZE,
        number < part_count(size) ==> part_len(number, size) == CHUNK_SIZE && part_offset(number)
            + part_len(number, size) == part_offset(number + 1),
        number == part_count(size) ==> part_offset(number) + part_len(number, size) == size,
{
    lemma_parts(size, number);
    assert(number * CHUNK_SIZE == (number - 1) * CHUNK_SIZE + CHUNK_SIZE) by (nonlinear_arith);
}

/// The part that a byte of the file is in.
pub open spec fn part_of_byte(at: int) -> int {
    at / CHUNK_SIZE as int + 1
}

/// Every byte of a file is in exactly one of its parts.
pub proof fn law_every_byte_is_in_one_part(size: nat, at: int, number: int)
    requires
        0 <= at < size,
    ensures
        1 <= part_of_byte(at) <= part_count(size),
        1 <= number <= part_count(size) ==> ((part_offset(number) <= at < part_offset(number)
            + part_len(number, size)) <==> number == part_of_byte(at)),
{
    let c = CHUNK_SIZE as int;
    let q = at / c;
    assert(q * c <= at < q * c + c) by (nonlinear_arith)
        requires
            q == at / c,
            c == 5242880,
    ;
    let n = part_count(size) as int;
    assert(n * c <= size + c - 1 < n * c + c) by (nonlinear_arith)
        requires
            n == (size + c - 1) / c,
            c == 5242880,
    ;
    assert(0 <= q < n) by (nonlinear_arith)
        requires
            q * c <= at,
            at < q * c + c,
            0 <= at,
            at < size,
            size + c - 1 < n * c + c,
            c == 5242880,
    ;
    if 1 <= number <= n {
        lemma_parts(size, number);
        let o = (number - 1) * c;
        if number < q + 1 {
            assert(o + c <= q * c) by (nonlinear_arith)
                requires
                    number < q + 1,
                    o == (number - 1) * c,
                    c == 5242880,
            ;
        } else if number > q + 1 {
            assert(o >= q * c + c) by (nonlinear_arith)
                requires
                    number > q + 1,
                    o == (number - 1) * c,
                    c == 5242880,
            ;
        }
    }
}

/// An empty file has no part, and any other has one.
pub proof fn law_part_count(size: nat)
    ensures
        part_count(size) == 0 <==> size == 0,
        part_count(size) * CHUNK_SIZE >= size,
        size > 0 ==> (part_count(size) - 1) * CHUNK_SIZE < size,
{
    let c = CHUNK_SIZE as int;
    let n = part_count(size) as int;
    assert(n * c <= size + c - 1 < n * c + c) by (nonlinear_arith)
        requires
            n == (size + c - 1) / c,
            c == 5242880,
    ;
    assert((n - 1) * c == n * c - c) by (nonlinear_arith);
    assert(n == 0 <==> size == 0) by (nonlinear_arith)
        requires
            n * c <= size + c - 1,
            size + c - 1 < n * c + c,
            size >= 0,
            c == 5242880,
    ;
}

/// Whether a list of ranges has one of that number.
pub open spec fn has_range(ranges: Seq<PartRange>, number: int) -> bool {
    exists|i: int| 0 <= i < ranges.len() && (#[trigger] ranges[i]).part_number == number
}

/// An upload that is taken up again sends exactly the parts that the remote
/// store has not, each with its place in the file, in the order of their
/// numbers.
pub proof fn law_resume_sends_what_is_missing(parts: Seq<PartView>, size: nat)
    requires
        sendable(size),
    ensures
        ({
            let todo = missing_up_to(parts, part_count(size), size);
            &&& forall|number: int|
                1 <= number <= part_count(size) ==> (#[trigger] has_range(todo, number)
                    <==> !has_part(parts, number))
            &&& forall|i: int|
                0 <= i < todo.len() ==> {
                    let number = (#[trigger] todo[i]).part_number as int;
                    &&& 1 <= number <= part_count(size)
                    &&& todo[i] == range_of(number, size)
                }
            &&& forall|i: int, j: int|
                0 <= i < j < todo.len() ==> (#[trigger] todo[i]).part_number < (
                #[trigger] todo[j]).part_number
        }),
{
    lemma_missing(parts, part_count(size), size);
}

proof fn lemma_missing(parts: Seq<PartView>, n: nat, size: nat)
    requires
        n <= i32::MAX,
    ensures
        ({
            let todo = missing_up_to(parts, n, size);
            &&& forall|number: int|
                1 <= number <= n ==> (#[trigger] has_range(todo, number) <==> !has_part(
                    parts,
                    number,
                ))
            &&& forall|i: int|
                0 <= i < todo.len() ==> {
                    let number = (#[trigger] todo[i]).part_number as int;
                    &&& 1 <= number <= n
                    &&& todo[i] == range_of(number, size)
                }
            &&& forall|i: int, j: int|
                0 <= i < j < todo.len() ==> (#[trigger] todo[i]).part_number < (
                #[trigger] todo[j]).part_number
        }),
    decreases n,
{
    if n > 0 {
        let m = (n - 1) as nat;
        lemma_missing(parts, m, size);
        let front = missing_up_to(parts, m, size);
        let todo = missing_up_to(parts, n, size);
        assert forall|number: int| 1 <= number <= n implies (#[trigger] has_range(todo, number)
            <==> !has_part(parts, number)) by {
            if number <= m {
                assert(has_range(front, number) <==> !has_part(parts, number));
                if has_range(front, number) {
                    let i = choose|i: int|
                        0 <= i < front.len() && (#[trigger] front[i]).part_number == number;
                    assert(todo[i] == front[i]);
                }
                if has_range(todo, number) {
                    let i = choose|i: int|
                        0 <= i < todo.len() && (#[trigger] todo[i]).part_number == number;
                    assert(i < front.len());
                    assert(front[i].part_number == number);
                }
            } else {
                if !has_part(parts, number) {
                    assert(todo[todo.len() - 1].part_number == number);
                } else if has_range(todo, number) {
                    let i = choose|i: int|
                        0 <= i < todo.len() && (#[trigger] todo[i]).part_number == number;
                    assert(front[i].part_number == number);
                }
            }
        }
    }
}

// ── Completing an upload ────────────────────────────────────────────────────

/// Whether parts are in the order of their numbers.
pub open spec fn numbers_ascend(list: Seq<PartView>) -> bool {
    forall|i: int, j: int|
        0 <= i < j < list.len() ==> (#[trigger] list[i]).part_number <= (
        #[trigger] list[j]).part_number
}

proof fn lemma_insert_part(list: Seq<PartView>, p: PartView)
    requires
        numbers_ascend(list),
    ensures
        numbers_ascend(insert_part(list, p)),
        insert_part(list, p).to_multiset() == list.to_multiset().insert(p),
        insert_part(list, p).len() == list.len() + 1,
        list.len() > 0 ==> insert_part(list, p).last().part_number == (if p.part_number
            >= list.last().part_number {
            p.part_number
        } else {
            list.last().part_number
        }),
        list.len() == 0 ==> insert_part(list, p).last() == p,
    decreases list.len(),
{
    broadcast use vstd::seq_lib::group_to_multiset_ensures;

    if list.len() > 0 && list.last().part_number > p.part_number {
        let front = list.drop_last();
        assert forall|i: int, j: int| 0 <= i < j < front.len() implies (
        #[trigger] front[i]).part_number <= (#[trigger] front[j]).part_number by {
            assert(list[i].part_number <= list[j].part_number);
        }
        lemma_insert_part(front, p);
        let inner = insert_part(front, p);
        let whole = inner.push(list.last());
        if front.len() > 0 {
            assert(list[list.len() - 2].part_number <= list[list.len() - 1].part_number);
        }
        assert forall|i: int, j: int| 0 <= i < j < whole.len() implies (
        #[trigger] whole[i]).part_number <= (#[trigger] whole[j]).part_number by {
            if j < inner.len() {
                assert(inner[i].part_number <= inner[j].part_number);
            } else if i < inner.len() - 1 {
                assert(inner[i].part_number <= inner[inner.len() - 1].part_number);
            }
        }
        assert(list =~= front.push(list.last()));
        assert(whole.to_multiset() =~= list.to_multiset().insert(p));
    } else {
        let whole = list.push(p);
        assert forall|i: int, j: int| 0 <= i < j < whole.len() implies (
        #[trigger] whole[i]).part_number <= (#[trigger] whole[j]).part_number by {
            if j == list.len() && i < list.len() - 1 {
                assert(list[i].part_number <= list[list.len() - 1].part_number);
            }
        }
    }
}

/// Sorted parts are in the order of their numbers, and are the same parts.
pub proof fn law_sorted_parts(list: Seq<PartView>)
    ensures
        numbers_ascend(sorted_parts(list)),
        sorted_parts(list).to_multiset() == list.to_multiset(),
        sorted_parts(list).len() == list.len(),
    decreases list.len(),
{
    broadcast use vstd::seq_lib::group_to_multiset_ensures;

    if list.len() > 0 {
        law_sorted_parts(list.drop_last());
        lemma_insert_part(sorted_parts(list.drop_last()), list.last());
        assert(list =~= list.drop_last().push(list.last()));
    } else {
        assert(sorted_parts(list) =~= list);
    }
}

/// A part stands in a sorted list where it stood in the list.
proof fn lemma_sorted_has(list: Seq<PartView>, number: int)
    ensures
        has_part(sorted_parts(list), number) <==> has_part(list, number),
{
    broadcast use vstd::seq_lib::group_to_multiset_ensures;

    law_sorted_parts(list);
    let sorted = sorted_parts(list);
    if has_part(sorted, number) {
        let i = choose|i: int|
            0 <= i < sorted.len() && (#[trigger] sorted[i]).part_number == number;
        assert(sorted.contains(sorted[i]));
        assert(sorted.to_multiset().count(sorted[i]) > 0);
        assert(list.contains(sorted[i]));
        let k = choose|k: int| 0 <= k < list.len() && list[k] == sorted[i];
        assert(list[k].part_number == number);
    }
    if has_part(list, number) {
        let i = choose|i: int| 0 <= i < list.len() && (#[trigger] list[i]).part_number == number;
        assert(list.contains(list[i]));
        assert(list.to_multiset().count(list[i]) > 0);
        assert(sorted.contains(list[i]));
        let k = choose|k: int| 0 <= k < sorted.len() && sorted[k] == list[i];
        assert(sorted[k].part_number == number);
    }
}

/// Whether a list has the parts one to `n`, as many as that, in whatever order.
pub open spec fn is_complete(list: Seq<PartView>, n: nat) -> bool {
    &&& list.len() == n
    &&& forall|number: int| 1 <= number <= n ==> #[trigger] has_part(list, number)
}

/// A complete list of parts, once sorted, has each part in its place.
pub proof fn law_completed_upload_lists_every_part(list: Seq<PartView>, n: nat)
    requires
        is_complete(list, n),
    ensures
        sorted_parts(list).len() == n,
        forall|i: int| 0 <= i < n ==> (#[trigger] sorted_parts(list)[i]).part_number == i + 1,
{
    law_sorted_parts(list);
    let sorted = sorted_parts(list);
    assert forall|number: int| 1 <= number <= n implies #[trigger] has_part(sorted, number) by {
        lemma_sorted_has(list, number);
        assert(has_part(list, number));
    }
    lemma_in_place(sorted, n, n);
    assert forall|i: int| 0 <= i < n implies (#[trigger] sorted[i]).part_number == i + 1 by {
        assert(at_place(sorted, i));
    }
}

spec fn at_place(list: Seq<PartView>, i: int) -> bool {
    list[i].part_number == i + 1
}

/// In a list of `n` ascending numbers that has each of one to `n`, the first
/// `k` are in their places.
proof fn lemma_in_place(list: Seq<PartView>, n: nat, k: nat)
    requires
        list.len() == n,
        k <= n,
        numbers_ascend(list),
        forall|number: int| 1 <= number <= n ==> #[trigger] has_part(list, number),
    ensures
        forall|i: int| 0 <= i < k ==> #[trigger] at_place(list, i),
{
    // Choose for each number a place that has it; they are ascending, so the
    // place of a number is at least the number less one, and the last of them
    // leaves no room for more.
    lemma_place_bounds(list, n, n);
    assert forall|i: int| 0 <= i < k implies #[trigger] at_place(list, i) by {
        assert(low_enough(list, i));
        assert(high_enough(list, i));
    }
}

spec fn low_enough(list: Seq<PartView>, i: int) -> bool {
    list[i].part_number <= i + 1
}

spec fn high_enough(list: Seq<PartView>, i: int) -> bool {
    list[i].part_number >= i + 1
}

proof fn lemma_place_bounds(list: Seq<PartView>, n: nat, m: nat)
    requires
        list.len() == n,
        m <= n,
        numbers_ascend(list),
        forall|number: int| 1 <= number <= n ==> #[trigger] has_part(list, number),
    ensures
        forall|i: int| 0 <= i < m ==> #[trigger] low_enough(list, i),
        forall|i: int| n - m <= i < n ==> #[trigger] high_enough(list, i),
    decreases m,
{
    if m > 0 {
        lemma_place_bounds(list, n, (m - 1) as nat);
        lemma_place_of(list, n, m as int);
        lemma_place_of(list, n, n - m + 1);
        assert(low_enough(list, m - 1)) by {
            let k = choose|k: int|
                m - 1 <= k < n && (#[trigger] list[k]).part_number == m;
            if k > m - 1 {
                assert(list[m - 1].part_number <= list[k].part_number);
            }
        }
        assert(high_enough(list, n - m)) by {
            let k = choose|k: int|
                0 <= k <= n - m && (#[trigger] list[k]).part_number == n - m + 1;
            if k < n - m {
                assert(list[k].part_number <= list[n - m].part_number);
            }
        }
    }
}

/// The first and the last place that a number can have.
proof fn lemma_place_of(list: Seq<PartView>, n: nat, number: int)
    requires
        list.len() == n,
        1 <= number <= n,
        numbers_ascend(list),
        forall|v: int| 1 <= v <= n ==> #[trigger] has_part(list, v),
    ensures
        exists|k: int| number - 1 <= k < n && (#[trigger] list[k]).part_number == number,
        exists|k: int| 0 <= k <= number - 1 && (#[trigger] list[k]).part_number == number,
{
    lemma_not_before(list, n, number);
    lemma_not_after(list, n, number);
}

proof fn lemma_not_before(list: Seq<PartView>, n: nat, number: int)
    requires
        list.len() == n,
        1 <= number <= n,
        numbers_ascend(list),
        forall|v: int| 1 <= v <= n ==> #[trigger] has_part(list, v),
    ensures
        exists|k: int| number - 1 <= k < n && (#[trigger] list[k]).part_number == number,
    decreases number,
{
    assert(has_part(list, number));
    let k = choose|k: int| 0 <= k < list.len() && (#[trigger] list[k]).part_number == number;
    if number > 1 {
        lemma_not_before(list, n, number - 1);
        let j = choose|j: int| number - 2 <= j < n && (#[trigger] list[j]).part_number == number - 1;
        if k <= j {
            if k < j {
                assert(list[k].part_number <= list[j].part_number);
            }
        }
    }
}

proof fn lemma_not_after(list: Seq<PartView>, n: nat, number: int)
    requires
        list.len() == n,
        1 <= number <= n,
        numbers_ascend(list),
        forall|v: int| 1 <= v <= n ==> #[trigger] has_part(list, v),
    ensures
        exists|k: int| 0 <= k <= number - 1 && (#[trigger] list[k]).part_number == number,
    decreases n - number,
{
    assert(has_part(list, number));
    let k = choose|k: int| 0 <= k < list.len() && (#[trigger] list[k]).part_number == number;
    if number < n {
        lemma_not_after(list, n, number + 1);
        let j = choose|j: int| 0 <= j <= number && (#[trigger] list[j]).part_number == number + 1;
        if k >= j {
            if k > j {
                assert(list[j].part_number <= list[k].part_number);
            }
        }
    }
}

/// How many of the numbers from one to `k` a list has.
spec fn count_up_to(parts: Seq<PartView>, k: nat) -> nat
    decreases k,
{
    if k == 0 {
        0
    } else {
        count_up_to(parts, (k - 1) as nat) + (if has_part(parts, k as int) {
            1nat
        } else {
            0
        })
    }
}

/// Whether parts have different numbers, all from one to `n`.
pub open spec fn is_part_of_upload(parts: Seq<PartView>, n: nat) -> bool {
    &&& forall|i: int| 0 <= i < parts.len() ==> 1 <= (#[trigger] parts[i]).part_number <= n
    &&& forall|i: int, j: int|
        0 <= i < j < parts.len() ==> (#[trigger] parts[i]).part_number != (
        #[trigger] parts[j]).part_number
}

proof fn lemma_count_last(parts: Seq<PartView>, k: nat)
    requires
        parts.len() > 0,
        !has_part(parts.drop_last(), parts.last().part_number as int),
        parts.last().part_number >= 1,
    ensures
        count_up_to(parts, k) == count_up_to(parts.drop_last(), k) + (if parts.last().part_number
            <= k {
            1nat
        } else {
            0
        }),
    decreases k,
{
    if k > 0 {
        let front = parts.drop_last();
        lemma_count_last(parts, (k - 1) as nat);
        let v = k as int;
        if has_part(front, v) {
            let i = choose|i: int| 0 <= i < front.len() && (#[trigger] front[i]).part_number == v;
            assert(parts[i].part_number == v);
        }
        if has_part(parts, v) {
            let i = choose|i: int| 0 <= i < parts.len() && (#[trigger] parts[i]).part_number == v;
            if i < front.len() {
                assert(front[i].part_number == v);
            }
        }
        if parts.last().part_number == v {
            assert(parts[parts.len() - 1].part_number == v);
        }
    }
}

proof fn lemma_count_all(parts: Seq<PartView>, n: nat)
    requires
        is_part_of_upload(parts, n),
    ensures
        count_up_to(parts, n) == parts.len(),
    decreases parts.len(),
{
    if parts.len() > 0 {
        let front = parts.drop_last();
        assert forall|i: int| 0 <= i < front.len() implies 1 <= (#[trigger] front[i]).part_number
            <= n by {
            assert(parts[i] == front[i]);
        }
        assert forall|i: int, j: int| 0 <= i < j < front.len() implies (
        #[trigger] front[i]).part_number != (#[trigger] front[j]).part_number by {
            assert(parts[i].part_number != parts[j].part_number);
        }
        if has_part(front, parts.last().part_number as int) {
            let i = choose|i: int|
                0 <= i < front.len() && (#[trigger] front[i]).part_number
                    == parts.last().part_number;
            assert(parts[i].part_number != parts[parts.len() - 1].part_number);
        }
        assert(1 <= parts[parts.len() - 1].part_number <= n);
        lemma_count_all(front, n);
        lemma_count_last(parts, n);
    } else {
        lemma_count_none(parts, n);
    }
}

proof fn lemma_count_none(parts: Seq<PartView>, n: nat)
    requires
        parts.len() == 0,
    ensures
        count_up_to(parts, n) == 0,
    decreases n,
{
    if n > 0 {
        lemma_count_none(parts, (n - 1) as nat);
    }
}

proof fn lemma_count_missing(parts: Seq<PartView>, n: nat, size: nat)
    ensures
        missing_up_to(parts, n, size).len() + count_up_to(parts, n) == n,
    decreases n,
{
    if n > 0 {
        lemma_count_missing(parts, (n - 1) as nat, size);
    }
}

/// The parts that the remote store had, and after them one for each that was
/// missing.
pub open spec fn with_sent(remote: Seq<PartView>, sent: Seq<PartView>) -> Seq<PartView> {
    remote + sent
}

/// Once every missing part was sent, an upload has all parts of the file, each
/// once, whatever the remote store had when it was taken up: the list that
/// completes it names them from the first to the last.
pub proof fn law_upload_completes(remote: Seq<PartView>, sent: Seq<PartView>, size: nat)
    requires
        sendable(size),
        is_part_of_upload(remote, part_count(size)),
        sent.len() == missing_up_to(remote, part_count(size), size).len(),
        forall|i: int|
            0 <= i < sent.len() ==> (#[trigger] sent[i]).part_number == missing_up_to(
                remote,
                part_count(size),
                size,
            )[i].part_number,
    ensures
        is_complete(with_sent(remote, sent), part_count(size)),
        forall|i: int|
            0 <= i < part_count(size) ==> (#[trigger] sorted_parts(
                with_sent(remote, sent),
            )[i]).part_number == i + 1,
{
    let n = part_count(size);
    let todo = missing_up_to(remote, n, size);
    let all = with_sent(remote, sent);
    lemma_count_all(remote, n);
    lemma_count_missing(remote, n, size);
    law_resume_sends_what_is_missing(remote, size);
    assert forall|number: int| 1 <= number <= n implies #[trigger] has_part(all, number) by {
        if has_part(remote, number) {
            let i = choose|i: int|
                0 <= i < remote.len() && (#[trigger] remote[i]).part_number == number;
            assert(all[i].part_number == number);
        } else {
            assert(has_range(todo, number));
            let i = choose|i: int| 0 <= i < todo.len() && (#[trigger] todo[i]).part_number == number;
            assert(sent[i].part_number == number);
            assert(all[remote.len() + i].part_number == number);
        }
    }
    law_completed_upload_lists_every_part(all, n);
}

/// An upload after the parts that were due, sent one after the other.
pub open spec fn with_parts(v: UploadView, etags: Seq<Seq<char>>) -> UploadView
    decreases etags.len(),
{
    if etags.len() == 0 {
        v
    } else {
        with_part(with_parts(v, etags.drop_last()), etags.last())
    }
}

proof fn lemma_with_parts(v: UploadView, etags: Seq<Seq<char>>)
    requires
        v.sent == 0,
        etags.len() <= v.todo.len(),
    ensures
        with_parts(v, etags).sent == etags.len(),
        with_parts(v, etags).todo == v.todo,
        with_parts(v, etags).size == v.size,
        with_parts(v, etags).blob_id == v.blob_id,
        with_parts(v, etags).s3_key == v.s3_key,
        with_parts(v, etags).upload_id == v.upload_id,
        with_parts(v, etags).parts == v.parts + Seq::new(
            etags.len(),
            |i: int| PartView { part_number: v.todo[i].part_number, etag: etags[i] },
        ),
    decreases etags.len(),
{
    if etags.len() == 0 {
        assert(with_parts(v, etags).parts =~= v.parts + Seq::new(
            etags.len(),
            |i: int| PartView { part_number: v.todo[i].part_number, etag: etags[i] },
        ));
    } else {
        lemma_with_parts(v, etags.drop_last());
        assert(with_parts(v, etags).parts =~= v.parts + Seq::new(
            etags.len(),
            |i: int| PartView { part_number: v.todo[i].part_number, etag: etags[i] },
        ));
    }
}

/// An upload that is taken up on a blob sends the blob's missing parts one after
/// the other, from the first, each with its place in the file, and then nothing
/// more. The list that completes it then names every part of the file once and
/// in order: those that the remote store had as it had them, and the others
/// with the tags that sending them gave.
pub proof fn law_upload_runs_to_its_end(
    blob: BlobView,
    size: u64,
    remote: Seq<PartView>,
    etags: Seq<Seq<char>>,
    k: int,
)
    requires
        sendable(size as nat),
        is_part_of_upload(remote, part_count(size as nat)),
        etags.len() == missing_up_to(remote, part_count(size as nat), size as nat).len(),
        0 <= k < etags.len(),
    ensures
        ({
            let begun = with_remote(taken_up(blob, size), remote);
            let due = due_part(with_parts(begun, etags.take(k)));
            let done = with_parts(begun, etags);
            let all = sorted_parts(done.parts);
            &&& begun.blob_id == blob.id && begun.s3_key == blob.s3_key
            &&& begun.upload_id == blob.upload_id
            &&& begun.resumed <==> blob.upload_id is Some
            &&& done.blob_id == blob.id && done.s3_key == blob.s3_key
            &&& done.upload_id == blob.upload_id
            &&& due is Some
            &&& 1 <= due->0.part_number <= part_count(size as nat)
            &&& due->0 == range_of(due->0.part_number as int, size as nat)
            &&& !has_part(remote, due->0.part_number as int)
            &&& done.parts.contains(
                PartView { part_number: due->0.part_number, etag: etags[k] },
            )
            &&& due_part(done) is None
            &&& forall|i: int| 0 <= i < remote.len() ==> done.parts.contains(#[trigger] remote[i])
            &&& done.parts.len() == part_count(size as nat)
            &&& forall|i: int|
                0 <= i < part_count(size as nat) ==> (#[trigger] all[i]).part_number == i + 1
        }),
{
    let begun = with_remote(taken_up(blob, size), remote);
    let n = part_count(size as nat);
    let todo = missing_up_to(remote, n, size as nat);
    let done = with_parts(begun, etags);
    lemma_with_parts(begun, etags);
    lemma_with_parts(begun, etags.take(k));
    law_resume_sends_what_is_missing(remote, size as nat);
    let sent = Seq::new(
        etags.len(),
        |i: int| PartView { part_number: begun.todo[i].part_number, etag: etags[i] },
    );
    law_upload_completes(remote, sent, size as nat);
    assert(done.parts == with_sent(remote, sent));
    assert(done.parts[remote.len() + k] == sent[k]);
    assert forall|i: int| 0 <= i < remote.len() implies done.parts.contains(#[trigger] remote[i]) by {
        assert(done.parts[i] == remote[i]);
    }
    assert(has_range(todo, todo[k].part_number as int));
    lemma_count_all(remote, n);
    lemma_count_missing(remote, n, size as nat);
}

} // verus!
