//! The leaf recognizers: fixed literals, runs of bytes that satisfy a
//! predicate, scans up to a delimiter, and the line feed.
//!
//! Each takes the input at the cursor and hands back the input behind what it
//! consumed, first in the pair, and what it matched, second.
use crate::error::{result_view, ErrorKind, ErrorKindView};
use vstd::prelude::*;
use vstd::slice::{slice_subrange, slice_to_vec};

verus! {

/// The line feed byte, the only line separator of the format.
pub const LINE_FEED: u8 = 10;

/// What [`expect_literal`] returns: the input behind `lit` where `lit` stands
/// at the front of `input`, the failure that names `lit` where it does not.
pub open spec fn spec_expect_literal(lit: Seq<u8>, input: Seq<u8>) -> Result<
    (Seq<u8>, ()),
    ErrorKindView,
> {
    if lit.is_prefix_of(input) {
        Ok((input.skip(lit.len() as int), ()))
    } else {
        Err(ErrorKindView::ExpectedLiteral(lit))
    }
}

/// The length of the longest prefix of `input` whose bytes all satisfy `pred`.
pub open spec fn run_len(pred: spec_fn(u8) -> bool, input: Seq<u8>) -> nat
    decreases input.len(),
{
    if input.len() > 0 && pred(input[0]) {
        1 + run_len(pred, input.skip(1))
    } else {
        0
    }
}

/// The split of `input` behind its longest prefix whose bytes all satisfy
/// `pred`: the rest first, the prefix second.
pub open spec fn spec_take_while(pred: spec_fn(u8) -> bool, input: Seq<u8>) -> (Seq<u8>, Seq<u8>) {
    let n = run_len(pred, input) as int;
    (input.skip(n), input.take(n))
}

/// `delimiter` stands in `input` at index `i`.
pub open spec fn occurs_at(input: Seq<u8>, delimiter: Seq<u8>, i: int) -> bool {
    &&& 0 <= i
    &&& i + delimiter.len() <= input.len()
    &&& input.subrange(i, i + delimiter.len()) == delimiter
}

/// The least index from `from` on at which `delimiter` stands in `input`.
pub open spec fn first_occurrence_from(input: Seq<u8>, delimiter: Seq<u8>, from: int) -> Option<
    int,
>
    decreases input.len() + 1 - from,
{
    if from < 0 || from + delimiter.len() > input.len() {
        None
    } else if occurs_at(input, delimiter, from) {
        Some(from)
    } else {
        first_occurrence_from(input, delimiter, from + 1)
    }
}

/// The least index at which `delimiter` stands in `input`.
pub open spec fn first_occurrence(input: Seq<u8>, delimiter: Seq<u8>) -> Option<int> {
    first_occurrence_from(input, delimiter, 0)
}

/// What [`take_until`] returns: the split of `input` before the first
/// occurrence of `delimiter`, the rest (which begins with the delimiter)
/// first; the failure that names `delimiter` where it does not occur.
pub open spec fn spec_take_until(delimiter: Seq<u8>, input: Seq<u8>) -> Result<
    (Seq<u8>, Seq<u8>),
    ErrorKindView,
> {
    match first_occurrence(input, delimiter) {
        Some(i) => Ok((input.skip(i), input.take(i))),
        None => Err(ErrorKindView::DelimiterNotFound(delimiter)),
    }
}

/// What [`newline`] returns: the input behind its first byte where that byte
/// is a line feed.
pub open spec fn spec_newline(input: Seq<u8>) -> Result<(Seq<u8>, ()), ErrorKindView> {
    if input.len() > 0 && input[0] == LINE_FEED {
        Ok((input.skip(1), ()))
    } else {
        Err(ErrorKindView::ExpectedNewline)
    }
}

/// No byte of `bytes` is `b`.
pub open spec fn free_of(bytes: Seq<u8>, b: u8) -> bool {
    forall|i: int| 0 <= i < bytes.len() ==> #[trigger] bytes[i] != b
}

/// Whether `a` and `b` hold the same bytes.
pub fn same_bytes(a: &[u8], b: &[u8]) -> (same: bool)
    ensures
        same == (a@ == b@),
{
    if a.len() != b.len() {
        return false;
    }
    let n = a.len();
    let mut i: usize = 0;
    while i < n
        invariant
            n == a@.len(),
            n == b@.len(),
            i <= n,
            forall|k: int| 0 <= k < i ==> a@[k] == b@[k],
        decreases n - i,
    {
        if a[i] != b[i] {
            return false;
        }
        i += 1;
    }
    assert(a@ =~= b@);
    true
}

/// Consumes exactly `lit` from the front of `input`, byte for byte.
pub fn expect_literal<'a>(lit: &[u8], input: &'a [u8]) -> (res: Result<(&'a [u8], ()), ErrorKind>)
    ensures
        result_view(res) == spec_expect_literal(lit@, input@),
{
    if lit.len() <= input.len() {
        let (front, remaining) = input.split_at(lit.len());
        if same_bytes(lit, front) {
            return Ok((remaining, ()));
        }
    }
    Err(ErrorKind::ExpectedLiteral(slice_to_vec(lit)))
}

/// Consumes the longest prefix of `input` whose bytes `pred` accepts. It
/// always succeeds and may match nothing.
///
/// The result is stated over what `pred` returned: `true` for every matched
/// byte, `false` for the first byte of the rest. Where `pred` decides a
/// predicate `p`, that is the split of [`spec_take_while`].
pub fn take_while<'a, F: Fn(u8) -> bool>(pred: F, input: &'a [u8]) -> (res: (&'a [u8], &'a [u8]))
    requires
        forall|b: u8| call_requires(pred, (b,)),
    ensures
        res.1@.len() <= input@.len(),
        res.1@ == input@.take(res.1@.len() as int),
        res.0@ == input@.skip(res.1@.len() as int),
        forall|i: int| 0 <= i < res.1@.len() ==> call_ensures(pred, (#[trigger] input@[i],), true),
        res.1@.len() < input@.len() ==> call_ensures(
            pred,
            (input@[res.1@.len() as int],),
            false,
        ),
        forall|p: spec_fn(u8) -> bool|
            (forall|b: u8, r: bool| #[trigger] call_ensures(pred, (b,), r) ==> r == p(b)) ==> res@
                == #[trigger] spec_take_while(p, input@),
{
    let mut n: usize = 0;
    while n < input.len()
        invariant
            n <= input@.len(),
            forall|b: u8| call_requires(pred, (b,)),
            forall|i: int| 0 <= i < n ==> call_ensures(pred, (#[trigger] input@[i],), true),
        ensures
            n <= input@.len(),
            forall|i: int| 0 <= i < n ==> call_ensures(pred, (#[trigger] input@[i],), true),
            n < input@.len() ==> call_ensures(pred, (input@[n as int],), false),
        decreases input@.len() - n,
    {
        if !pred(input[n]) {
            break;
        }
        n += 1;
    }
    let (matched, remaining) = input.split_at(n);
    proof {
        assert forall|p: spec_fn(u8) -> bool|
            (forall|b: u8, r: bool| #[trigger] call_ensures(pred, (b,), r) ==> r == p(b)) implies (
        remaining@, matched@) == #[trigger] spec_take_while(p, input@) by {
            lemma_run_len_unique(p, input@, n as int);
        }
    }
    (remaining, matched)
}

/// Consumes the bytes of `input` before the first occurrence of `delimiter`;
/// the delimiter itself stays at the front of the rest.
///
/// On success the delimiter stands behind what was taken and at no index
/// before; on failure it stands nowhere in `input`.
pub fn take_until<'a>(delimiter: &[u8], input: &'a [u8]) -> (res: Result<
    (&'a [u8], &'a [u8]),
    ErrorKind,
>)
    ensures
        result_view(res) == spec_take_until(delimiter@, input@),
        res matches Ok((_, matched)) ==> occurs_at(input@, delimiter@, matched@.len() as int),
        res matches Ok((_, matched)) ==> forall|j: int|
            0 <= j < matched@.len() ==> !occurs_at(input@, delimiter@, j),
        res is Err ==> forall|j: int| !occurs_at(input@, delimiter@, j),
{
    proof {
        lemma_first_occurrence_from(input@, delimiter@, 0);
    }
    let m = delimiter.len();
    if m > input.len() {
        return Err(ErrorKind::DelimiterNotFound(slice_to_vec(delimiter)));
    }
    let len = input.len();
    let last = len - m;
    let mut i: usize = 0;
    loop
        invariant
            m == delimiter@.len(),
            len == input@.len(),
            last == len - m,
            i <= last,
            forall|j: int| 0 <= j < i ==> !occurs_at(input@, delimiter@, j),
        ensures
            forall|j: int| 0 <= j <= last ==> !occurs_at(input@, delimiter@, j),
        decreases last - i,
    {
        if same_bytes(delimiter, slice_subrange(input, i, i + m)) {
            proof {
                lemma_first_occurrence_unique(input@, delimiter@, i as int);
            }
            let (matched, remaining) = input.split_at(i);
            return Ok((remaining, matched));
        }
        if i == last {
            break;
        }
        i += 1;
    }
    Err(ErrorKind::DelimiterNotFound(slice_to_vec(delimiter)))
}

/// Consumes exactly one line feed.
pub fn newline<'a>(input: &'a [u8]) -> (res: Result<(&'a [u8], ()), ErrorKind>)
    ensures
        result_view(res) == spec_newline(input@),
{
    if input.len() > 0 && input[0] == LINE_FEED {
        let (_, remaining) = input.split_at(1);
        Ok((remaining, ()))
    } else {
        Err(ErrorKind::ExpectedNewline)
    }
}

/// A prefix of `input` is its longest run of bytes that satisfy `pred` as
/// soon as all its bytes satisfy `pred` and the byte behind it, if there is
/// one, does not.
pub proof fn lemma_run_len_unique(pred: spec_fn(u8) -> bool, input: Seq<u8>, n: int)
    requires
        0 <= n <= input.len(),
        forall|i: int| 0 <= i < n ==> pred(#[trigger] input[i]),
        n < input.len() ==> !pred(input[n]),
    ensures
        run_len(pred, input) == n,
    decreases n,
{
    if n > 0 {
        let tail = input.skip(1);
        assert forall|i: int| 0 <= i < n - 1 implies pred(#[trigger] tail[i]) by {}
        lemma_run_len_unique(pred, tail, n - 1);
    }
}

/// The longest run ends inside the input, all its bytes satisfy `pred`, and
/// the byte behind it, if there is one, does not.
pub proof fn lemma_run_len_maximal(pred: spec_fn(u8) -> bool, input: Seq<u8>)
    ensures
        run_len(pred, input) <= input.len(),
        forall|i: int| 0 <= i < run_len(pred, input) ==> pred(#[trigger] input[i]),
        run_len(pred, input) < input.len() ==> !pred(input[run_len(pred, input) as int]),
    decreases input.len(),
{
    if input.len() > 0 && pred(input[0]) {
        let tail = input.skip(1);
        lemma_run_len_maximal(pred, tail);
        assert forall|i: int| 0 <= i < run_len(pred, input) implies pred(#[trigger] input[i]) by {
            if i > 0 {
                assert(tail[i - 1] == input[i]);
            }
        }
    }
}

/// The search from `from` on finds index `i` exactly where the delimiter
/// stands at `i` and at no index from `from` up to `i`; it finds nothing
/// exactly where the delimiter stands at no index from `from` on.
pub proof fn lemma_first_occurrence_from(input: Seq<u8>, delimiter: Seq<u8>, from: int)
    requires
        0 <= from,
    ensures
        match first_occurrence_from(input, delimiter, from) {
            Some(i) => {
                &&& from <= i
                &&& occurs_at(input, delimiter, i)
                &&& forall|j: int| from <= j < i ==> !occurs_at(input, delimiter, j)
            },
            None => forall|j: int| from <= j ==> !occurs_at(input, delimiter, j),
        },
    decreases input.len() + 1 - from,
{
    if from + delimiter.len() > input.len() {
    } else if occurs_at(input, delimiter, from) {
    } else {
        lemma_first_occurrence_from(input, delimiter, from + 1);
    }
}

/// An index is the first occurrence as soon as the delimiter stands there and
/// at no smaller index.
pub proof fn lemma_first_occurrence_unique(input: Seq<u8>, delimiter: Seq<u8>, i: int)
    requires
        occurs_at(input, delimiter, i),
        forall|j: int| 0 <= j < i ==> !occurs_at(input, delimiter, j),
    ensures
        first_occurrence(input, delimiter) == Some(i),
{
    lemma_first_occurrence_from(input, delimiter, 0);
}

/// A literal in front of anything is recognized, and what follows it is left.
pub proof fn lemma_expect_literal_front(lit: Seq<u8>, tail: Seq<u8>)
    ensures
        spec_expect_literal(lit, lit + tail) == Ok::<(Seq<u8>, ()), ErrorKindView>((tail, ())),
{
    let input = lit + tail;
    assert(input.skip(lit.len() as int) =~= tail);
}

/// A run of bytes that satisfy `pred`, in front of nothing or of a byte that
/// does not, is what the split takes.
pub proof fn lemma_take_while_front(pred: spec_fn(u8) -> bool, run: Seq<u8>, tail: Seq<u8>)
    requires
        forall|i: int| 0 <= i < run.len() ==> pred(#[trigger] run[i]),
        tail.len() > 0 ==> !pred(tail[0]),
    ensures
        spec_take_while(pred, run + tail) == (tail, run),
{
    let input = run + tail;
    assert forall|i: int| 0 <= i < run.len() implies pred(#[trigger] input[i]) by {}
    lemma_run_len_unique(pred, input, run.len() as int);
}

/// Bytes free of `b`, in front of `b`, are what the scan up to `b` takes; the
/// rest begins with `b`.
pub proof fn lemma_take_until_front(b: u8, head: Seq<u8>, tail: Seq<u8>)
    requires
        free_of(head, b),
    ensures
        spec_take_until(seq![b], head + (seq![b] + tail)) == Ok::<
            (Seq<u8>, Seq<u8>),
            ErrorKindView,
        >((seq![b] + tail, head)),
{
    let delimiter = seq![b];
    let input = head + (delimiter + tail);
    let at = head.len() as int;
    assert(input.subrange(at, at + 1) =~= delimiter);
    assert forall|j: int| 0 <= j < at implies !occurs_at(input, delimiter, j) by {
        assert(input.subrange(j, j + 1)[0] == head[j]);
    }
    lemma_first_occurrence_unique(input, delimiter, at);
    assert(input.skip(at) =~= delimiter + tail);
    assert(input.take(at) =~= head);
}

/// A line feed in front of anything is recognized.
pub proof fn lemma_newline_front(tail: Seq<u8>)
    ensures
        spec_newline(seq![LINE_FEED] + tail) == Ok::<(Seq<u8>, ()), ErrorKindView>((tail, ())),
{
    assert((seq![LINE_FEED] + tail).skip(1) =~= tail);
}

/// Where a literal is recognized, the input is the literal and what is left.
pub proof fn lemma_expect_literal_split(lit: Seq<u8>, input: Seq<u8>)
    requires
        spec_expect_literal(lit, input) is Ok,
    ensures
        input == lit + spec_expect_literal(lit, input)->Ok_0.0,
{
}

/// The input is the run that the split takes and what is left; every byte of
/// the run satisfies `pred`, and the first byte that is left does not.
pub proof fn lemma_take_while_split(pred: spec_fn(u8) -> bool, input: Seq<u8>)
    ensures
        ({
            let (rest, run) = spec_take_while(pred, input);
            &&& input == run + rest
            &&& forall|i: int| 0 <= i < run.len() ==> pred(#[trigger] run[i])
            &&& rest.len() > 0 ==> !pred(rest[0])
        }),
{
    lemma_run_len_maximal(pred, input);
}

/// Where the scan up to the byte `b` succeeds, the input is what it took and
/// what is left; what it took is free of `b`, and what is left begins with
/// `b`.
pub proof fn lemma_take_until_split(b: u8, input: Seq<u8>)
    requires
        spec_take_until(seq![b], input) is Ok,
    ensures
        ({
            let (rest, head) = spec_take_until(seq![b], input)->Ok_0;
            &&& input == head + rest
            &&& free_of(head, b)
            &&& rest.len() > 0
            &&& rest == seq![b] + rest.skip(1)
        }),
{
    let delimiter = seq![b];
    lemma_first_occurrence_from(input, delimiter, 0);
    let at = first_occurrence(input, delimiter)->0;
    let head = input.take(at);
    assert forall|i: int| 0 <= i < head.len() implies #[trigger] head[i] != b by {
        if head[i] == b {
            assert(input.subrange(i, i + 1) =~= delimiter);
            assert(occurs_at(input, delimiter, i));
        }
    }
}

/// Where a line feed is recognized, the input is the line feed and what is
/// left.
pub proof fn lemma_newline_split(input: Seq<u8>)
    requires
        spec_newline(input) is Ok,
    ensures
        input == seq![LINE_FEED] + spec_newline(input)->Ok_0.0,
{
}

} // verus!
