use vstd::prelude::*;

verus! {

/// The character that writes the decimal digit `d` (for `d < 10`).
pub open spec fn digit_char(d: nat) -> char {
    if d == 0 {
        '0'
    } else if d == 1 {
        '1'
    } else if d == 2 {
        '2'
    } else if d == 3 {
        '3'
    } else if d == 4 {
        '4'
    } else if d == 5 {
        '5'
    } else if d == 6 {
        '6'
    } else if d == 7 {
        '7'
    } else if d == 8 {
        '8'
    } else {
        '9'
    }
}

/// The decimal digits of `n`, most significant first, without leading zeros.
pub open spec fn decimal(n: nat) -> Seq<char>
    decreases n,
{
    if n < 10 {
        seq![digit_char(n)]
    } else {
        decimal(n / 10) + seq![digit_char(n % 10)]
    }
}

/// The position of the last '.' in `s`, or -1 when `s` holds none.
pub open spec fn last_dot(s: Seq<char>) -> int
    decreases s.len(),
{
    if s.len() == 0 {
        -1
    } else if s.last() == '.' {
        s.len() - 1
    } else {
        last_dot(s.drop_last())
    }
}

/// The `k`-th name tried for `desired`: the name itself for `k == 0`, then
/// `stem_k.ext`, where the extension follows the last '.'; a name without
/// a '.' is all stem and becomes `name_k`.
pub open spec fn candidate(desired: Seq<char>, k: nat) -> Seq<char> {
    if k == 0 {
        desired
    } else if last_dot(desired) < 0 {
        desired + seq!['_'] + decimal(k)
    } else {
        let d = last_dot(desired);
        desired.subrange(0, d) + seq!['_'] + decimal(k) + desired.subrange(d, desired.len() as int)
    }
}

/// The names held by a directory listing.
pub open spec fn names_of(contents: Seq<String>) -> Set<Seq<char>> {
    contents.map_values(|s: String| s@).to_set()
}

/// `k` is the first index whose candidate is not taken.
pub open spec fn is_first_free(desired: Seq<char>, taken: Set<Seq<char>>, k: nat) -> bool {
    &&& !taken.contains(candidate(desired, k))
    &&& forall|j: nat| j < k ==> taken.contains(#[trigger] candidate(desired, j))
}

/// The name chosen for `desired` in a directory holding `taken`: the first
/// candidate that is not taken.
pub open spec fn resolved(desired: Seq<char>, taken: Set<Seq<char>>) -> Seq<char> {
    candidate(desired, choose|k: nat| is_first_free(desired, taken, k))
}

proof fn lemma_decimal_len(n: nat)
    ensures
        decimal(n).len() >= 1,
        n >= 10 ==> decimal(n).len() >= 2,
    decreases n,
{
    if n >= 10 {
        lemma_decimal_len(n / 10);
    }
}

proof fn lemma_decimal_injective(a: nat, b: nat)
    requires
        decimal(a) == decimal(b),
    ensures
        a == b,
    decreases a,
{
    lemma_decimal_len(a);
    lemma_decimal_len(b);
    if a >= 10 && b >= 10 {
        assert(decimal(a).drop_last() == decimal(a / 10));
        assert(decimal(b).drop_last() == decimal(b / 10));
        assert(decimal(a).last() == digit_char(a % 10));
        assert(decimal(b).last() == digit_char(b % 10));
        lemma_decimal_injective(a / 10, b / 10);
    } else if a < 10 && b < 10 {
        assert(decimal(a)[0] == digit_char(a));
        assert(decimal(b)[0] == digit_char(b));
    }
}

proof fn lemma_candidate_len(desired: Seq<char>, k: nat)
    requires
        k > 0,
    ensures
        candidate(desired, k).len() == desired.len() + 1 + decimal(k).len(),
{
    lemma_last_dot(desired);
}

/// Distinct indices give distinct candidates.
proof fn lemma_candidate_injective(desired: Seq<char>, a: nat, b: nat)
    requires
        a != b,
    ensures
        candidate(desired, a) != candidate(desired, b),
{
    lemma_last_dot(desired);
    lemma_decimal_len(a);
    lemma_decimal_len(b);
    if a == 0 {
        lemma_candidate_len(desired, b);
    } else if b == 0 {
        lemma_candidate_len(desired, a);
    } else if candidate(desired, a) == candidate(desired, b) {
        lemma_candidate_len(desired, a);
        lemma_candidate_len(desired, b);
        let d = last_dot(desired);
        let lo: int = if d < 0 {
            desired.len() as int + 1
        } else {
            d + 1
        };
        let ca = candidate(desired, a);
        let cb = candidate(desired, b);
        assert(ca.subrange(lo, lo + decimal(a).len()) =~= decimal(a));
        assert(cb.subrange(lo, lo + decimal(b).len()) =~= decimal(b));
        lemma_decimal_injective(a, b);
    }
}

proof fn lemma_last_dot(s: Seq<char>)
    ensures
        -1 <= last_dot(s) < s.len(),
        last_dot(s) >= 0 ==> s[last_dot(s)] == '.',
        forall|j: int| last_dot(s) < j < s.len() ==> s[j] != '.',
    decreases s.len(),
{
    if s.len() > 0 && s.last() != '.' {
        lemma_last_dot(s.drop_last());
        assert forall|j: int| 0 <= j < s.len() - 1 implies s.drop_last()[j] == s[j] by {}
    }
}

/// When the first `k` candidates are all taken, the listing holds at least `k` entries.
proof fn lemma_taken_bound(desired: Seq<char>, contents: Seq<String>, k: nat)
    requires
        forall|j: nat| j < k ==> names_of(contents).contains(#[trigger] candidate(desired, j)),
    ensures
        k <= contents.len(),
{
    broadcast use vstd::seq_lib::seq_to_set_is_finite;

    let cands = Seq::new(k, |j: int| candidate(desired, j as nat));
    assert forall|i: int, j: int| 0 <= i < cands.len() && 0 <= j < cands.len() && i != j implies cands[i]
        != cands[j] by {
        lemma_candidate_injective(desired, i as nat, j as nat);
    }
    cands.unique_seq_to_set();
    let views = contents.map_values(|s: String| s@);
    views.lemma_cardinality_of_set();
    assert forall|x: Seq<char>| cands.to_set().contains(x) implies views.to_set().contains(x) by {
        let i = choose|i: int| 0 <= i < cands.len() && cands[i] == x;
        assert(candidate(desired, i as nat) == x);
    }
    vstd::set_lib::lemma_len_subset(cands.to_set(), views.to_set());
}

/// Some index is the first free one, searching upwards from `k`.
proof fn lemma_first_free_exists(desired: Seq<char>, contents: Seq<String>, k: nat)
    requires
        forall|j: nat| j < k ==> names_of(contents).contains(#[trigger] candidate(desired, j)),
    ensures
        exists|f: nat| is_first_free(desired, names_of(contents), f),
    decreases contents.len() - k,
{
    lemma_taken_bound(desired, contents, k);
    if names_of(contents).contains(candidate(desired, k)) {
        assert forall|j: nat| j < k + 1 implies names_of(contents).contains(
            #[trigger] candidate(desired, j),
        ) by {
            if j < k {
            }
        }
        lemma_taken_bound(desired, contents, k + 1);
        lemma_first_free_exists(desired, contents, k + 1);
    } else {
        assert(is_first_free(desired, names_of(contents), k));
    }
}

proof fn lemma_first_free_unique(desired: Seq<char>, taken: Set<Seq<char>>, a: nat, b: nat)
    requires
        is_first_free(desired, taken, a),
        is_first_free(desired, taken, b),
    ensures
        a == b,
{
    if a < b {
        assert(taken.contains(candidate(desired, a)));
    } else if b < a {
        assert(taken.contains(candidate(desired, b)));
    }
}

/// The first free index is the one that `resolved` names.
proof fn lemma_resolved_is(desired: Seq<char>, taken: Set<Seq<char>>, k: nat)
    requires
        is_first_free(desired, taken, k),
    ensures
        resolved(desired, taken) == candidate(desired, k),
{
    let c = choose|c: nat| is_first_free(desired, taken, c);
    lemma_first_free_unique(desired, taken, c, k);
}

/// The name resolved for a directory is not one that the directory holds.
pub proof fn lemma_resolved_is_free(desired: Seq<char>, contents: Seq<String>)
    ensures
        !names_of(contents).contains(resolved(desired, names_of(contents))),
{
    lemma_first_free_exists(desired, contents, 0);
}

/// The name resolved for a directory is never one that it already holds, and
/// a second resolution in the directory that also holds the first result
/// yields a name different from that result and from every earlier entry.
pub proof fn lemma_resolution_never_collides(
    desired: Seq<char>,
    contents: Seq<String>,
    first: String,
    desired_again: Seq<char>,
)
    requires
        first@ == resolved(desired, names_of(contents)),
    ensures
        !names_of(contents).contains(first@),
        resolved(desired_again, names_of(contents.push(first))) != first@,
        !names_of(contents).contains(resolved(desired_again, names_of(contents.push(first)))),
{
    lemma_first_free_exists(desired, contents, 0);
    let more = contents.push(first);
    lemma_first_free_exists(desired_again, more, 0);
    let second = resolved(desired_again, names_of(more));
    assert(names_of(more).contains(first@)) by {
        assert(more.map_values(|s: String| s@)[contents.len() as int] == first@);
    }
    let views = contents.map_values(|s: String| s@);
    assert forall|x: Seq<char>| names_of(contents).contains(x) implies names_of(more).contains(x) by {
        let i = choose|i: int| 0 <= i < views.len() && views[i] == x;
        assert(more.map_values(|s: String| s@)[i] == x);
    }
}

/// The single-character text of the digit `d`.
fn digit_str(d: usize) -> (r: &'static str)
    requires
        d < 10,
    ensures
        r@ == seq![digit_char(d as nat)],
{
    proof {
        reveal_strlit("0");
        reveal_strlit("1");
        reveal_strlit("2");
        reveal_strlit("3");
        reveal_strlit("4");
        reveal_strlit("5");
        reveal_strlit("6");
        reveal_strlit("7");
        reveal_strlit("8");
        reveal_strlit("9");
    }
    if d == 0 {
        "0"
    } else if d == 1 {
        "1"
    } else if d == 2 {
        "2"
    } else if d == 3 {
        "3"
    } else if d == 4 {
        "4"
    } else if d == 5 {
        "5"
    } else if d == 6 {
        "6"
    } else if d == 7 {
        "7"
    } else if d == 8 {
        "8"
    } else {
        "9"
    }
}

/// The decimal text of `n`.
pub fn decimal_string(n: usize) -> (r: String)
    ensures
        r@ == decimal(n as nat),
    decreases n,
{
    if n < 10 {
        digit_str(n).to_owned()
    } else {
        let mut s = decimal_string(n / 10);
        s.append(digit_str(n % 10));
        s
    }
}

/// The position of the last '.' in `s`, if it holds one.
fn find_last_dot(s: &str) -> (r: Option<usize>)
    ensures
        match r {
            None => last_dot(s@) < 0,
            Some(i) => i == last_dot(s@),
        },
{
    proof {
        lemma_last_dot(s@);
    }
    let mut i: usize = s.unicode_len();
    while i > 0
        invariant
            i <= s@.len(),
            forall|j: int| i <= j < s@.len() ==> s@[j] != '.',
        decreases i,
    {
        if s.get_char(i - 1) == '.' {
            proof {
                lemma_last_dot(s@);
            }
            return Some(i - 1);
        }
        i = i - 1;
    }
    None
}

/// The `k`-th name tried for `desired`.
fn candidate_name(desired: &str, k: usize) -> (r: String)
    ensures
        r@ == candidate(desired@, k as nat),
{
    if k == 0 {
        return desired.to_owned();
    }
    proof {
        reveal_strlit("_");
    }
    let number = decimal_string(k);
    match find_last_dot(desired) {
        None => {
            let mut r = desired.to_owned();
            r.append("_");
            r.append(number.as_str());
            r
        },
        Some(d) => {
            proof {
                lemma_last_dot(desired@);
            }
            let len = desired.unicode_len();
            let mut r = desired.substring_char(0, d).to_owned();
            r.append("_");
            r.append(number.as_str());
            r.append(desired.substring_char(d, len));
            r
        },
    }
}

/// Whether the listing holds `name`.
fn contains_name(contents: &Vec<String>, name: &String) -> (r: bool)
    ensures
        r == names_of(contents@).contains(name@),
{
    let ghost views = contents@.map_values(|s: String| s@);
    let mut i: usize = 0;
    while i < contents.len()
        invariant
            i <= contents@.len(),
            views == contents@.map_values(|s: String| s@),
            forall|j: int| 0 <= j < i ==> views[j] != name@,
        decreases contents.len() - i,
    {
        if contents[i] == *name {
            assert(views[i as int] == name@);
            return true;
        }
        i = i + 1;
    }
    false
}

/// Chooses the name under which `init` is stored in a directory that holds
/// `dir_contents`: `init` itself when free, else the first free one of
/// `stem_1.ext`, `stem_2.ext`, ...
pub fn generate_name_on_disk(init: &str, dir_contents: &Vec<String>) -> (r: String)
    ensures
        r@ == resolved(init@, names_of(dir_contents@)),
        !names_of(dir_contents@).contains(r@),
{
    let ghost taken = names_of(dir_contents@);
    let count = dir_contents.len();
    let mut k: usize = 0;
    let mut name = candidate_name(init, 0);
    while contains_name(dir_contents, &name)
        invariant
            taken == names_of(dir_contents@),
            count == dir_contents@.len(),
            k <= count,
            name@ == candidate(init@, k as nat),
            forall|j: nat| j < k ==> taken.contains(#[trigger] candidate(init@, j)),
        decreases dir_contents@.len() - k,
    {
        assert forall|j: nat| j < k + 1 implies taken.contains(#[trigger] candidate(init@, j)) by {
            if j < k {
            }
        }
        proof {
            lemma_taken_bound(init@, dir_contents@, (k + 1) as nat);
        }
        k = k + 1;
        name = candidate_name(init, k);
    }
    proof {
        lemma_resolved_is(init@, taken, k as nat);
    }
    name
}

} // verus!
