use vstd::prelude::*;

use crate::types::Repo;
use vstd::string::StrSliceExecFns;
use vstd::utf8::encode_utf8;

verus! {

/// The sum of the star counts of all repositories.
pub open spec fn total_stars(repos: Seq<Repo>) -> nat
    decreases repos.len(),
{
    if repos.len() == 0 {
        0
    } else {
        total_stars(repos.drop_last()) + repos.last().stargazers_count as nat
    }
}

/// Inserts `x` into a list ordered by stars, descending, right after every
/// element that has at least as many stars as `x`.
pub open spec fn insert_by_stars(sorted: Seq<Repo>, x: Repo) -> Seq<Repo>
    decreases sorted.len(),
{
    if sorted.len() == 0 {
        seq![x]
    } else if sorted[0].stargazers_count >= x.stargazers_count {
        seq![sorted[0]] + insert_by_stars(sorted.drop_first(), x)
    } else {
        seq![x] + sorted
    }
}

/// The stable sort of `repos` by star count, descending: repositories with
/// equal counts keep their relative order.
pub open spec fn sort_by_stars(repos: Seq<Repo>) -> Seq<Repo>
    decreases repos.len(),
{
    if repos.len() == 0 {
        Seq::empty()
    } else {
        insert_by_stars(sort_by_stars(repos.drop_last()), repos.last())
    }
}

/// The repositories with at least `threshold` stars, in their order.
pub open spec fn eligible(repos: Seq<Repo>, threshold: nat) -> Seq<Repo>
    decreases repos.len(),
{
    if repos.len() == 0 {
        Seq::empty()
    } else if repos.last().stargazers_count >= threshold {
        eligible(repos.drop_last(), threshold).push(repos.last())
    } else {
        eligible(repos.drop_last(), threshold)
    }
}

/// At most the first `n` elements of `s`.
pub open spec fn first_n(s: Seq<Repo>, n: nat) -> Seq<Repo> {
    if n < s.len() {
        s.take(n as int)
    } else {
        s
    }
}

/// The repositories that the report lists, in listing order.
pub open spec fn shown(repos: Seq<Repo>, limit: nat, threshold: nat) -> Seq<Repo> {
    first_n(eligible(sort_by_stars(repos), threshold), limit)
}

/// The length of a name in UTF-8 bytes, as `str::len` gives it (a string's
/// byte length always fits in `usize`).
pub open spec fn name_bytes(r: Repo) -> nat {
    (encode_utf8(r.name@).len() as usize) as nat
}

/// The largest name length, in bytes, among `repos` (0 for none).
pub open spec fn name_width(repos: Seq<Repo>) -> nat
    decreases repos.len(),
{
    if repos.len() == 0 {
        0
    } else {
        let w = name_width(repos.drop_last());
        if name_bytes(repos.last()) > w {
            name_bytes(repos.last())
        } else {
            w
        }
    }
}

/// The character of a decimal digit.
pub open spec fn digit_char(d: nat) -> char {
    if d == 0 {
        '0'
    } else if d == 1 {
        '1'
    } else if d == 2 {
        '2'
    } else if d == 3 {
        '3'
    } else if d == 4 {
        '4'
    } else if d == 5 {
        '5'
    } else if d == 6 {
        '6'
    } else if d == 7 {
        '7'
    } else if d == 8 {
        '8'
    } else {
        '9'
    }
}

/// The decimal notation of `n`, without leading zeros.
pub open spec fn decimal(n: nat) -> Seq<char>
    decreases n,
{
    if n < 10 {
        seq![digit_char(n)]
    } else {
        decimal(n / 10).push(digit_char(n % 10))
    }
}

/// `n` spaces.
pub open spec fn spaces(n: nat) -> Seq<char> {
    Seq::new(n, |i: int| ' ')
}

/// One listing line: the name padded with spaces to `width` characters, the
/// star separator, the star count and a line break.
pub open spec fn listing_line(r: Repo, width: nat) -> Seq<char> {
    let pad: nat = if width > r.name@.len() {
        (width - r.name@.len()) as nat
    } else {
        0
    };
    r.name@ + spaces(pad) + "   ★  "@ + decimal(r.stargazers_count as nat) + "\n"@
}

/// The listing lines of `repos`, all padded to `width`.
pub open spec fn listing(repos: Seq<Repo>, width: nat) -> Seq<char>
    decreases repos.len(),
{
    if repos.len() == 0 {
        Seq::empty()
    } else {
        listing(repos.drop_last(), width) + listing_line(repos.last(), width)
    }
}

/// The whole report: the total over all repositories, then, when anything is
/// listed, a blank line and the listing aligned on the longest listed name.
pub open spec fn report(repos: Seq<Repo>, limit: nat, threshold: nat) -> Seq<char> {
    let listed = shown(repos, limit, threshold);
    let head = "Total: "@ + decimal(total_stars(repos)) + "\n"@;
    if listed.len() == 0 {
        head
    } else {
        head + "\n"@ + listing(listed, name_width(listed))
    }
}

/// Inserting `x` at a position `j` preceded only by elements with at least as
/// many stars, and followed by one with fewer (if any), is `insert_by_stars`.
proof fn lemma_insert_at(sorted: Seq<Repo>, x: Repo, j: int)
    requires
        0 <= j <= sorted.len(),
        forall|k: int| 0 <= k < j ==> sorted[k].stargazers_count >= x.stargazers_count,
        j < sorted.len() ==> sorted[j].stargazers_count < x.stargazers_count,
    ensures
        insert_by_stars(sorted, x) == sorted.insert(j, x),
    decreases j,
{
    if sorted.len() == 0 {
        assert(sorted.insert(j, x) =~= seq![x]);
    } else if j == 0 {
        assert(sorted.insert(j, x) =~= seq![x] + sorted);
    } else {
        let rest = sorted.drop_first();
        lemma_insert_at(rest, x, j - 1);
        assert(sorted.insert(j, x) =~= seq![sorted[0]] + rest.insert(j - 1, x));
    }
}

/// Stable sort by star count, descending.
fn sort_by_stars_desc(repos: Vec<Repo>) -> (r: Vec<Repo>)
    ensures
        r@ == sort_by_stars(repos@),
{
    let ghost all = repos@;
    let mut rest = repos;
    let mut sorted: Vec<Repo> = Vec::new();
    while rest.len() > 0
        invariant
            all == repos@,
            rest@.len() <= all.len(),
            rest@ == all.subrange(all.len() - rest@.len(), all.len() as int),
            sorted@ == sort_by_stars(all.subrange(0, all.len() - rest@.len())),
        decreases rest@.len(),
    {
        let ghost done = all.len() - rest@.len();
        let x = rest.remove(0);
        let mut j: usize = 0;
        while j < sorted.len() && sorted[j].stargazers_count >= x.stargazers_count
            invariant
                j <= sorted@.len(),
                forall|k: int| 0 <= k < j ==> sorted@[k].stargazers_count >= x.stargazers_count,
            decreases sorted@.len() - j,
        {
            j = j + 1;
        }
        proof {
            lemma_insert_at(sorted@, x, j as int);
            let prefix = all.subrange(0, done + 1);
            assert(prefix.drop_last() =~= all.subrange(0, done));
            assert(prefix.last() == x);
        }
        sorted.insert(j, x);
    }
    proof {
        assert(all.subrange(0, all.len() as int) =~= all);
    }
    sorted
}

/// The total star count of all repositories; a `u128` holds any such sum.
fn sum_stars(repos: &Vec<Repo>) -> (r: u128)
    ensures
        r == total_stars(repos@),
{
    let mut total: u128 = 0;
    let mut i: usize = 0;
    while i < repos.len()
        invariant
            i <= repos@.len(),
            total == total_stars(repos@.subrange(0, i as int)),
            total <= i * (usize::MAX as int),
        decreases repos@.len() - i,
    {
        proof {
            let prefix = repos@.subrange(0, i + 1);
            assert(prefix.drop_last() =~= repos@.subrange(0, i as int));
            assert((i + 1) * (usize::MAX as int) == i * (usize::MAX as int) + usize::MAX)
                by (nonlinear_arith);
            assert((i + 1) * (usize::MAX as int) <= u128::MAX) by (nonlinear_arith)
                requires
                    i < usize::MAX,
                    usize::MAX < 0x1_0000_0000_0000_0000,
            ;
        }
        total = total + repos[i].stargazers_count as u128;
        i = i + 1;
    }
    proof {
        assert(repos@.subrange(0, repos@.len() as int) =~= repos@);
    }
    total
}

/// Keeps, in order, at most `limit` of the repositories with at least
/// `threshold` stars.
fn select_shown(sorted: Vec<Repo>, limit: usize, threshold: usize) -> (r: Vec<Repo>)
    ensures
        r@ == first_n(eligible(sorted@, threshold as nat), limit as nat),
{
    let ghost all = sorted@;
    let mut rest = sorted;
    let mut kept: Vec<Repo> = Vec::new();
    while rest.len() > 0
        invariant
            all == sorted@,
            rest@.len() <= all.len(),
            rest@ == all.subrange(all.len() - rest@.len(), all.len() as int),
            kept@ == first_n(
                eligible(all.subrange(0, all.len() - rest@.len()), threshold as nat),
                limit as nat,
            ),
        decreases rest@.len(),
    {
        let ghost done = all.len() - rest@.len();
        let x = rest.remove(0);
        proof {
            let prefix = all.subrange(0, done + 1);
            assert(prefix.drop_last() =~= all.subrange(0, done));
            assert(prefix.last() == x);
            let before = eligible(all.subrange(0, done), threshold as nat);
            if x.stargazers_count >= threshold {
                if before.len() < limit {
                    assert(first_n(before.push(x), limit as nat) =~= before.push(x));
                } else {
                    assert(first_n(before.push(x), limit as nat) =~= first_n(
                        before,
                        limit as nat,
                    ));
                }
            }
        }
        if x.stargazers_count >= threshold && kept.len() < limit {
            kept.push(x);
        }
    }
    proof {
        assert(all.subrange(0, all.len() as int) =~= all);
    }
    kept
}

/// The largest name length in bytes.
fn widest_name(repos: &Vec<Repo>) -> (r: usize)
    ensures
        r == name_width(repos@),
{
    let mut width: usize = 0;
    let mut i: usize = 0;
    while i < repos.len()
        invariant
            i <= repos@.len(),
            width == name_width(repos@.subrange(0, i as int)),
        decreases repos@.len() - i,
    {
        proof {
            let prefix = repos@.subrange(0, i + 1);
            assert(prefix.drop_last() =~= repos@.subrange(0, i as int));
        }
        let name = repos[i].name.as_str();
        let n = name.len();
        assert(name@ == repos@[i as int].name@);
        if n > width {
            width = n;
        }
        i = i + 1;
    }
    proof {
        assert(repos@.subrange(0, repos@.len() as int) =~= repos@);
    }
    width
}

/// The one-character text of a decimal digit.
fn digit_text(d: u128) -> (r: &'static str)
    requires
        d < 10,
    ensures
        r@ == seq![digit_char(d as nat)],
{
    proof {
        reveal_strlit("0");
        reveal_strlit("1");
        reveal_strlit("2");
        reveal_strlit("3");
        reveal_strlit("4");
        reveal_strlit("5");
        reveal_strlit("6");
        reveal_strlit("7");
        reveal_strlit("8");
        reveal_strlit("9");
    }
    let r = if d == 0 {
        "0"
    } else if d == 1 {
        "1"
    } else if d == 2 {
        "2"
    } else if d == 3 {
        "3"
    } else if d == 4 {
        "4"
    } else if d == 5 {
        "5"
    } else if d == 6 {
        "6"
    } else if d == 7 {
        "7"
    } else if d == 8 {
        "8"
    } else {
        "9"
    };
    assert(r@ =~= seq![digit_char(d as nat)]);
    r
}

/// Appends the decimal notation of `n`.
fn push_decimal(out: &mut String, n: u128)
    ensures
        final(out)@ == old(out)@ + decimal(n as nat),
    decreases n,
{
    if n >= 10 {
        push_decimal(out, n / 10);
    }
    out.append(digit_text(n % 10));
    assert(final(out)@ =~= old(out)@ + decimal(n as nat));
}

/// Appends `n` spaces.
fn push_spaces(out: &mut String, n: usize)
    ensures
        final(out)@ == old(out)@ + spaces(n as nat),
{
    let ghost start = out@;
    let mut i: usize = 0;
    while i < n
        invariant
            i <= n,
            out@ == start + spaces(i as nat),
        decreases n - i,
    {
        out.append(" ");
        proof {
            reveal_strlit(" ");
            assert(start + spaces((i + 1) as nat) =~= start + spaces(i as nat) + " "@);
        }
        i = i + 1;
    }
}

/// Appends the listing line of `r`, padded to `width`.
fn push_listing_line(out: &mut String, r: &Repo, width: usize)
    ensures
        final(out)@ == old(out)@ + listing_line(*r, width as nat),
{
    let name = r.name.as_str();
    out.append(name);
    let chars = name.unicode_len();
    if width > chars {
        push_spaces(out, width - chars);
    } else {
        assert(spaces(0) =~= Seq::<char>::empty());
    }
    out.append("   ★  ");
    push_decimal(out, r.stargazers_count as u128);
    out.append("\n");
    assert(final(out)@ =~= old(out)@ + listing_line(*r, width as nat));
}

/// Renders the star report of `repos`.
///
/// The first line gives the total star count of all repositories, whatever the
/// limit and threshold. The repositories with at least `stargazer_threshold`
/// stars, sorted by star count (descending, ties in input order), are listed
/// at most `repo_limit` of them, one per line, after a blank line that only
/// appears when something is listed. Names are padded to the longest listed
/// name.
pub fn output(repos: Vec<Repo>, repo_limit: usize, stargazer_threshold: usize) -> (r: String)
    ensures
        r@ == report(repos@, repo_limit as nat, stargazer_threshold as nat),
{
    let ghost all = repos@;
    let total = sum_stars(&repos);
    let mut out = String::new();
    out.append("Total: ");
    push_decimal(&mut out, total);
    out.append("\n");
    let ghost head = out@;
    let sorted = sort_by_stars_desc(repos);
    let listed = select_shown(sorted, repo_limit, stargazer_threshold);
    let width = widest_name(&listed);
    if listed.len() > 0 {
        out.append("\n");
    }
    let ghost top = out@;
    let mut i: usize = 0;
    while i < listed.len()
        invariant
            i <= listed@.len(),
            out@ == top + listing(listed@.subrange(0, i as int), width as nat),
        decreases listed@.len() - i,
    {
        push_listing_line(&mut out, &listed[i], width);
        proof {
            let prefix = listed@.subrange(0, i + 1);
            assert(prefix.drop_last() =~= listed@.subrange(0, i as int));
        }
        i = i + 1;
    }
    proof {
        assert(listed@.subrange(0, listed@.len() as int) =~= listed@);
        assert(listing(Seq::<Repo>::empty(), width as nat) =~= Seq::<char>::empty());
        assert(out@ =~= report(all, repo_limit as nat, stargazer_threshold as nat));
    }
    out
}

/// Every repository in `repos` has fewer than `threshold` stars.
pub open spec fn all_below(repos: Seq<Repo>, threshold: nat) -> bool {
    forall|i: int| 0 <= i < repos.len() ==> repos[i].stargazers_count < threshold
}

proof fn lemma_insert_below(sorted: Seq<Repo>, x: Repo, threshold: nat)
    requires
        all_below(sorted, threshold),
        x.stargazers_count < threshold,
    ensures
        all_below(insert_by_stars(sorted, x), threshold),
    decreases sorted.len(),
{
    if sorted.len() > 0 && sorted[0].stargazers_count >= x.stargazers_count {
        lemma_insert_below(sorted.drop_first(), x, threshold);
        let tail = insert_by_stars(sorted.drop_first(), x);
        assert forall|i: int| 0 <= i < 1 + tail.len() implies (seq![sorted[0]]
            + tail)[i].stargazers_count < threshold by {
            if i > 0 {
                assert((seq![sorted[0]] + tail)[i] == tail[i - 1]);
            }
        }
    }
}

proof fn lemma_sort_below(repos: Seq<Repo>, threshold: nat)
    requires
        all_below(repos, threshold),
    ensures
        all_below(sort_by_stars(repos), threshold),
    decreases repos.len(),
{
    if repos.len() > 0 {
        lemma_sort_below(repos.drop_last(), threshold);
        lemma_insert_below(sort_by_stars(repos.drop_last()), repos.last(), threshold);
    }
}

proof fn lemma_eligible_none(repos: Seq<Repo>, threshold: nat)
    requires
        all_below(repos, threshold),
    ensures
        eligible(repos, threshold).len() == 0,
    decreases repos.len(),
{
    if repos.len() > 0 {
        lemma_eligible_none(repos.drop_last(), threshold);
    }
}

/// When no repository reaches the threshold, the report is the total line
/// alone, with no blank line after it.
pub proof fn law_nothing_eligible(repos: Seq<Repo>, limit: nat, threshold: nat)
    requires
        all_below(repos, threshold),
    ensures
        report(repos, limit, threshold) == "Total: "@ + decimal(total_stars(repos)) + "\n"@,
{
    lemma_sort_below(repos, threshold);
    lemma_eligible_none(sort_by_stars(repos), threshold);
}

/// A limit of zero lists nothing: the report is the total line alone, and the
/// total counts every repository.
pub proof fn law_zero_limit(repos: Seq<Repo>, threshold: nat)
    ensures
        report(repos, 0, threshold) == "Total: "@ + decimal(total_stars(repos)) + "\n"@,
{
}

/// Two repository lists that hold the same names and star counts, position by position.
pub open spec fn same_content(a: Seq<Repo>, b: Seq<Repo>) -> bool {
    &&& a.len() == b.len()
    &&& forall|i: int|
        0 <= i < a.len() ==> #[trigger] a[i].name@ == b[i].name@ && a[i].stargazers_count
            == b[i].stargazers_count
}

proof fn lemma_same_content_drop_last(a: Seq<Repo>, b: Seq<Repo>)
    requires
        same_content(a, b),
        a.len() > 0,
    ensures
        same_content(a.drop_last(), b.drop_last()),
{
    assert forall|i: int| 0 <= i < a.len() - 1 implies #[trigger] a.drop_last()[i].name@
        == b.drop_last()[i].name@ && a.drop_last()[i].stargazers_count
        == b.drop_last()[i].stargazers_count by {
        assert(a.drop_last()[i] == a[i]);
        assert(b.drop_last()[i] == b[i]);
        assert(a[i].name@ == b[i].name@);
    }
}

proof fn lemma_same_content_prepend(x: Repo, a: Seq<Repo>, y: Repo, b: Seq<Repo>)
    requires
        same_content(a, b),
        x.name@ == y.name@,
        x.stargazers_count == y.stargazers_count,
    ensures
        same_content(seq![x] + a, seq![y] + b),
{
    let l = seq![x] + a;
    let r = seq![y] + b;
    assert forall|i: int| 0 <= i < l.len() implies #[trigger] l[i].name@ == r[i].name@
        && l[i].stargazers_count == r[i].stargazers_count by {
        if i > 0 {
            assert(l[i] == a[i - 1]);
            assert(r[i] == b[i - 1]);
            assert(a[i - 1].name@ == b[i - 1].name@);
        }
    }
}

proof fn lemma_same_content_insert(a: Seq<Repo>, x: Repo, b: Seq<Repo>, y: Repo)
    requires
        same_content(a, b),
        x.name@ == y.name@,
        x.stargazers_count == y.stargazers_count,
    ensures
        same_content(insert_by_stars(a, x), insert_by_stars(b, y)),
    decreases a.len(),
{
    if a.len() == 0 {
        assert(same_content(a, b));
        lemma_same_content_prepend(x, a, y, b);
        assert(seq![x] + a =~= seq![x]);
        assert(seq![y] + b =~= seq![y]);
    } else if a[0].stargazers_count >= x.stargazers_count {
        assert(a[0].name@ == b[0].name@);
        assert(same_content(a.drop_first(), b.drop_first())) by {
            assert forall|i: int| 0 <= i < a.len() - 1 implies #[trigger] a.drop_first()[i].name@
                == b.drop_first()[i].name@ && a.drop_first()[i].stargazers_count
                == b.drop_first()[i].stargazers_count by {
                assert(a.drop_first()[i] == a[i + 1]);
                assert(b.drop_first()[i] == b[i + 1]);
                assert(a[i + 1].name@ == b[i + 1].name@);
            }
        }
        lemma_same_content_insert(a.drop_first(), x, b.drop_first(), y);
        lemma_same_content_prepend(
            a[0],
            insert_by_stars(a.drop_first(), x),
            b[0],
            insert_by_stars(b.drop_first(), y),
        );
    } else {
        assert(a[0].name@ == b[0].name@);
        lemma_same_content_prepend(x, a, y, b);
    }
}

proof fn lemma_same_content_sort(a: Seq<Repo>, b: Seq<Repo>)
    requires
        same_content(a, b),
    ensures
        same_content(sort_by_stars(a), sort_by_stars(b)),
    decreases a.len(),
{
    if a.len() > 0 {
        lemma_same_content_drop_last(a, b);
        lemma_same_content_sort(a.drop_last(), b.drop_last());
        assert(a.last().name@ == b.last().name@);
        lemma_same_content_insert(
            sort_by_stars(a.drop_last()),
            a.last(),
            sort_by_stars(b.drop_last()),
            b.last(),
        );
    }
}

proof fn lemma_same_content_push(a: Seq<Repo>, x: Repo, b: Seq<Repo>, y: Repo)
    requires
        same_content(a, b),
        x.name@ == y.name@,
        x.stargazers_count == y.stargazers_count,
    ensures
        same_content(a.push(x), b.push(y)),
{
    assert forall|i: int| 0 <= i < a.len() + 1 implies #[trigger] a.push(x)[i].name@ == b.push(
        y,
    )[i].name@ && a.push(x)[i].stargazers_count == b.push(y)[i].stargazers_count by {
        if i < a.len() {
            assert(a.push(x)[i] == a[i]);
            assert(b.push(y)[i] == b[i]);
            assert(a[i].name@ == b[i].name@);
        }
    }
}

proof fn lemma_same_content_eligible(a: Seq<Repo>, b: Seq<Repo>, threshold: nat)
    requires
        same_content(a, b),
    ensures
        same_content(eligible(a, threshold), eligible(b, threshold)),
    decreases a.len(),
{
    if a.len() > 0 {
        lemma_same_content_drop_last(a, b);
        lemma_same_content_eligible(a.drop_last(), b.drop_last(), threshold);
        assert(a.last().name@ == b.last().name@);
        if a.last().stargazers_count >= threshold {
            lemma_same_content_push(
                eligible(a.drop_last(), threshold),
                a.last(),
                eligible(b.drop_last(), threshold),
                b.last(),
            );
        }
    }
}

proof fn lemma_same_content_measures(a: Seq<Repo>, b: Seq<Repo>, width: nat)
    requires
        same_content(a, b),
    ensures
        total_stars(a) == total_stars(b),
        name_width(a) == name_width(b),
        listing(a, width) == listing(b, width),
    decreases a.len(),
{
    if a.len() > 0 {
        lemma_same_content_drop_last(a, b);
        lemma_same_content_measures(a.drop_last(), b.drop_last(), width);
        assert(a.last().name@ == b.last().name@);
        assert(listing_line(a.last(), width) == listing_line(b.last(), width));
    }
}

/// The report depends only on the names and star counts of the repositories:
/// rendering the same content twice gives the same text.
pub proof fn law_report_deterministic(a: Seq<Repo>, b: Seq<Repo>, limit: nat, threshold: nat)
    requires
        same_content(a, b),
    ensures
        report(a, limit, threshold) == report(b, limit, threshold),
{
    lemma_same_content_sort(a, b);
    let ea = eligible(sort_by_stars(a), threshold);
    let eb = eligible(sort_by_stars(b), threshold);
    lemma_same_content_eligible(sort_by_stars(a), sort_by_stars(b), threshold);
    let sa = shown(a, limit, threshold);
    let sb = shown(b, limit, threshold);
    assert(same_content(sa, sb)) by {
        if limit < ea.len() {
            assert forall|i: int| 0 <= i < sa.len() implies #[trigger] sa[i].name@ == sb[i].name@
                && sa[i].stargazers_count == sb[i].stargazers_count by {
                assert(sa[i] == ea[i]);
                assert(sb[i] == eb[i]);
                assert(ea[i].name@ == eb[i].name@);
            }
        }
    }
    lemma_same_content_measures(a, b, 0);
    lemma_same_content_measures(sa, sb, name_width(sa));
}

/// Ordered by star count, descending.
pub open spec fn descending(repos: Seq<Repo>) -> bool {
    forall|i: int, j: int|
        0 <= i < j < repos.len()
            ==> #[trigger] repos[i].stargazers_count >= #[trigger] repos[j].stargazers_count
}

/// Every repository has at most `m` stars.
pub open spec fn all_at_most(repos: Seq<Repo>, m: nat) -> bool {
    forall|i: int| 0 <= i < repos.len() ==> #[trigger] repos[i].stargazers_count <= m
}

/// Every repository has at least `m` stars.
pub open spec fn all_at_least(repos: Seq<Repo>, m: nat) -> bool {
    forall|i: int| 0 <= i < repos.len() ==> #[trigger] repos[i].stargazers_count >= m
}

proof fn lemma_insert_at_most(sorted: Seq<Repo>, x: Repo, m: nat)
    requires
        all_at_most(sorted, m),
        x.stargazers_count <= m,
    ensures
        all_at_most(insert_by_stars(sorted, x), m),
    decreases sorted.len(),
{
    if sorted.len() > 0 && sorted[0].stargazers_count >= x.stargazers_count {
        lemma_insert_at_most(sorted.drop_first(), x, m);
        let tail = insert_by_stars(sorted.drop_first(), x);
        assert forall|i: int| 0 <= i < 1 + tail.len() implies #[trigger] (seq![sorted[0]]
            + tail)[i].stargazers_count <= m by {
            if i > 0 {
                assert((seq![sorted[0]] + tail)[i] == tail[i - 1]);
            }
        }
    } else if sorted.len() > 0 {
        assert forall|i: int| 0 <= i < 1 + sorted.len() implies #[trigger] (seq![x]
            + sorted)[i].stargazers_count <= m by {
            if i > 0 {
                assert((seq![x] + sorted)[i] == sorted[i - 1]);
            }
        }
    }
}

proof fn lemma_insert_descending(sorted: Seq<Repo>, x: Repo)
    requires
        descending(sorted),
    ensures
        descending(insert_by_stars(sorted, x)),
    decreases sorted.len(),
{
    if sorted.len() > 0 {
        let head = sorted[0];
        let rest = sorted.drop_first();
        assert(descending(rest)) by {
            assert forall|i: int, j: int| 0 <= i < j < rest.len()
                implies #[trigger] rest[i].stargazers_count
                >= #[trigger] rest[j].stargazers_count by {
                assert(sorted[i + 1].stargazers_count >= sorted[j + 1].stargazers_count);
            }
        }
        if head.stargazers_count >= x.stargazers_count {
            lemma_insert_descending(rest, x);
            let tail = insert_by_stars(rest, x);
            assert(all_at_most(rest, head.stargazers_count as nat)) by {
                assert forall|i: int| 0 <= i < rest.len()
                    implies #[trigger] rest[i].stargazers_count
                    <= head.stargazers_count by {
                    assert(sorted[0].stargazers_count >= sorted[i + 1].stargazers_count);
                }
            }
            lemma_insert_at_most(rest, x, head.stargazers_count as nat);
            let l = seq![head] + tail;
            assert forall|i: int, j: int| 0 <= i < j < l.len()
                implies #[trigger] l[i].stargazers_count
                >= #[trigger] l[j].stargazers_count by {
                assert(l[j] == tail[j - 1]);
                if i > 0 {
                    assert(l[i] == tail[i - 1]);
                }
            }
        } else {
            let l = seq![x] + sorted;
            assert forall|i: int, j: int| 0 <= i < j < l.len()
                implies #[trigger] l[i].stargazers_count
                >= #[trigger] l[j].stargazers_count by {
                assert(l[j] == sorted[j - 1]);
                assert(sorted[0].stargazers_count >= sorted[j - 1].stargazers_count);
                if i > 0 {
                    assert(l[i] == sorted[i - 1]);
                }
            }
        }
    }
}

proof fn lemma_sort_descending(repos: Seq<Repo>)
    ensures
        descending(sort_by_stars(repos)),
    decreases repos.len(),
{
    if repos.len() > 0 {
        lemma_sort_descending(repos.drop_last());
        lemma_insert_descending(sort_by_stars(repos.drop_last()), repos.last());
    }
}

proof fn lemma_eligible_at_least(repos: Seq<Repo>, threshold: nat, m: nat)
    requires
        all_at_least(repos, m),
    ensures
        all_at_least(eligible(repos, threshold), m),
        all_at_least(eligible(repos, threshold), threshold),
    decreases repos.len(),
{
    if repos.len() > 0 {
        assert(all_at_least(repos.drop_last(), m)) by {
            assert forall|i: int| 0 <= i < repos.len() - 1
                implies #[trigger] repos.drop_last()[i].stargazers_count
                >= m by {
                assert(repos.drop_last()[i] == repos[i]);
            }
        }
        lemma_eligible_at_least(repos.drop_last(), threshold, m);
        assert(repos.last() == repos[repos.len() - 1]);
    }
}

proof fn lemma_eligible_descending(repos: Seq<Repo>, threshold: nat)
    requires
        descending(repos),
    ensures
        descending(eligible(repos, threshold)),
    decreases repos.len(),
{
    if repos.len() > 0 {
        let front = repos.drop_last();
        let x = repos.last();
        assert(descending(front)) by {
            assert forall|i: int, j: int| 0 <= i < j < front.len()
                implies #[trigger] front[i].stargazers_count
                >= #[trigger] front[j].stargazers_count by {
                assert(repos[i].stargazers_count >= repos[j].stargazers_count);
            }
        }
        lemma_eligible_descending(front, threshold);
        if x.stargazers_count >= threshold {
            assert(all_at_least(front, x.stargazers_count as nat)) by {
                assert forall|i: int| 0 <= i < front.len()
                    implies #[trigger] front[i].stargazers_count
                    >= x.stargazers_count by {
                    assert(repos[i].stargazers_count >= repos[repos.len() - 1].stargazers_count);
                }
            }
            lemma_eligible_at_least(front, threshold, x.stargazers_count as nat);
            let e = eligible(front, threshold);
            assert forall|i: int, j: int| 0 <= i < j < e.len() + 1
                implies #[trigger] e.push(x)[i].stargazers_count
                >= #[trigger] e.push(x)[j].stargazers_count by {
                assert(e.push(x)[i] == e[i]);
            }
        }
    }
}

/// The listed repositories are those of highest star count first, each with
/// at least `threshold` stars, and at most `limit` of them.
pub proof fn law_listing_shape(repos: Seq<Repo>, limit: nat, threshold: nat)
    ensures
        shown(repos, limit, threshold).len() <= limit,
        descending(shown(repos, limit, threshold)),
        all_at_least(shown(repos, limit, threshold), threshold),
{
    let sorted = sort_by_stars(repos);
    lemma_sort_descending(repos);
    lemma_eligible_descending(sorted, threshold);
    lemma_eligible_at_least(sorted, threshold, 0);
    let e = eligible(sorted, threshold);
    let s = shown(repos, limit, threshold);
    if limit < e.len() {
        assert forall|i: int, j: int| 0 <= i < j < s.len() implies #[trigger] s[i].stargazers_count
            >= #[trigger] s[j].stargazers_count by {
            assert(s[i] == e[i] && s[j] == e[j]);
        }
        assert forall|i: int| 0 <= i < s.len() implies #[trigger] s[i].stargazers_count
            >= threshold by {
            assert(s[i] == e[i]);
        }
    }
}

} // verus!
