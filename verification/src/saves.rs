use vstd::prelude::*;
use crate::text::{chars_of, decimal, decimal_spec, string_from_chars, sub_chars};
use crate::text::lemma_decimal_injective;
use crate::text::{trim_end_seq, trim_end_str};

verus! {

/// The extension that save files carry, without its dot.
pub open spec fn json_ext() -> Seq<char> {
    seq!['j', 's', 'o', 'n']
}

/// The suffix of save files: a dot and the extension.
pub open spec fn dot_json() -> Seq<char> {
    seq!['.', 'j', 's', 'o', 'n']
}

/// The index of the last `.` in `s`, or `-1` when there is none.
pub open spec fn last_dot(s: Seq<char>) -> int
    decreases s.len(),
{
    if s.len() == 0 {
        -1
    } else if s.last() == '.' {
        s.len() - 1
    } else {
        last_dot(s.drop_last())
    }
}

/// The name under which a file is listed as a save: files whose extension
/// (what follows the last dot, when that dot is not the first character) is
/// `json` are listed under their stem (what precedes that dot); other files
/// are not saves.
pub open spec fn json_stem(name: Seq<char>) -> Option<Seq<char>> {
    let d = last_dot(name);
    if d > 0 && name.subrange(d + 1, name.len() as int) == json_ext() {
        Some(name.subrange(0, d))
    } else {
        None
    }
}

/// The saves that a directory listing shows, in listing order.
pub open spec fn listed_saves(names: Seq<Seq<char>>) -> Seq<Seq<char>>
    decreases names.len(),
{
    if names.len() == 0 {
        Seq::empty()
    } else {
        let rest = listed_saves(names.drop_last());
        match json_stem(names.last()) {
            Some(stem) => rest.push(stem),
            None => rest,
        }
    }
}

/// The views of a list of strings.
pub open spec fn views(list: Seq<String>) -> Seq<Seq<char>> {
    list.map_values(|s: String| s@)
}

fn last_dot_exec(cs: &Vec<char>) -> (r: usize)
    ensures
        r <= cs@.len(),
        r == last_dot(cs@) + 1,
{
    let mut i = cs.len();
    assert(cs@.take(i as int) =~= cs@);
    while i > 0 && cs[i - 1] != '.'
        invariant
            i <= cs@.len(),
            last_dot(cs@.take(i as int)) == last_dot(cs@),
        decreases i,
    {
        assert(cs@.take(i as int).drop_last() =~= cs@.take(i - 1));
        i = i - 1;
    }
    if i == 0 {
        assert(cs@.take(0) =~= Seq::<char>::empty());
    }
    i
}

/// The save name of a file, if the file is a save (see `json_stem`).
pub fn save_stem(name: &str) -> (r: Option<String>)
    ensures
        r matches Some(s) ==> json_stem(name@) == Some(s@),
        r is None ==> json_stem(name@) is None,
{
    let cs = chars_of(name);
    let after = last_dot_exec(&cs);
    if after <= 1 {
        return None;
    }
    let len = cs.len();
    if len - after == 4 && cs[after] == 'j' && cs[after + 1] == 's' && cs[after + 2] == 'o'
        && cs[after + 3] == 'n' {
        assert(cs@.subrange(after as int, len as int) =~= json_ext());
        let stem = sub_chars(&cs, 0, after - 1);
        Some(string_from_chars(&stem))
    } else {
        proof {
            let t = cs@.subrange(after as int, len as int);
            if t == json_ext() {
                assert(t[0] == 'j' && t[1] == 's' && t[2] == 'o' && t[3] == 'n');
            }
        }
        None
    }
}

/// The saves found among the names of the regular files of the save
/// directory: each `.json` file, listed under its stem.
pub fn list_saves(file_names: &Vec<String>) -> (r: Vec<String>)
    ensures
        views(r@) == listed_saves(views(file_names@)),
{
    let mut r: Vec<String> = Vec::new();
    let mut k: usize = 0;
    while k < file_names.len()
        invariant
            k <= file_names@.len(),
            views(r@) == listed_saves(views(file_names@.take(k as int))),
        decreases file_names.len() - k,
    {
        let name = &file_names[k];
        let ghost before = views(file_names@.take(k as int));
        assert(views(file_names@.take(k + 1)).drop_last() =~= before);
        assert(views(file_names@.take(k + 1)).last() == name@);
        match save_stem(name.as_str()) {
            Some(stem) => {
                r.push(stem);
                assert(views(r@) =~= listed_saves(before).push(stem@));
            },
            None => {},
        }
        k = k + 1;
    }
    assert(file_names@.take(file_names@.len() as int) =~= file_names@);
    r
}

/// Drops every entry equal to `name` from the list of saves, keeping the
/// order of the others.
pub fn remove_save(list: &mut Vec<String>, name: &String)
    ensures
        views(final(list)@) == views(old(list)@).filter(|s: Seq<char>| s != name@),
{
    let ghost f = |s: Seq<char>| s != name@;
    let mut kept: Vec<String> = Vec::new();
    let mut k: usize = 0;
    while k < list.len()
        invariant
            k <= list@.len(),
            f == (|s: Seq<char>| s != name@),
            views(kept@) == views(list@.take(k as int)).filter(f),
        decreases list.len() - k,
    {
        let item = list[k].clone();
        proof {
            let before = views(list@.take(k as int));
            assert(views(list@.take(k + 1)) =~= before.push(item@));
            before.lemma_filter_push(item@, f);
        }
        if !(item == *name) {
            kept.push(item);
            assert(views(kept@) =~= views(list@.take(k as int)).filter(f).push(list@[k as int]@));
        }
        k = k + 1;
    }
    assert(list@.take(list@.len() as int) =~= list@);
    *list = kept;
}

/// The file name of a new save made at time `stamp`: `save_<stamp>.json`
/// on the first attempt, `save_<stamp>-<attempt>.json` on later ones.
pub open spec fn save_file_spec(stamp: Seq<char>, attempt: nat) -> Seq<char> {
    seq!['s', 'a', 'v', 'e', '_'] + stamp + (if attempt == 0 {
        Seq::<char>::empty()
    } else {
        seq!['-'] + decimal_spec(attempt)
    }) + dot_json()
}

/// Builds the file name for a new save (see `save_file_spec`).
pub fn save_file_name(stamp: &str, attempt: usize) -> (r: String)
    ensures
        r@ == save_file_spec(stamp@, attempt as nat),
{
    proof {
        reveal_strlit("save_");
        reveal_strlit("-");
        reveal_strlit(".json");
    }
    let mut s = String::from_str("save_");
    s.append(stamp);
    if attempt > 0 {
        s.append("-");
        let digits = decimal(attempt);
        s.append(digits.as_str());
    }
    s.append(".json");
    assert(s@ =~= save_file_spec(stamp@, attempt as nat));
    s
}

/// The name under which a freshly written save file is added to the list:
/// the file name with its trailing `.json` suffixes removed.
pub fn save_label(file_name: &str) -> (r: String)
    ensures
        r@ == trim_end_seq(file_name@, dot_json()),
{
    proof {
        reveal_strlit(".json");
    }
    assert(".json"@ =~= dot_json());
    trim_end_str(file_name, ".json")
}

/// The file that holds the save listed as `label`.
pub fn save_file_for(label: &str) -> (r: String)
    ensures
        r@ == label@ + dot_json(),
{
    proof {
        reveal_strlit(".json");
    }
    let mut s = String::from_str(label);
    s.append(".json");
    assert(s@ =~= label@ + dot_json());
    s
}

proof fn lemma_last_dot_props(s: Seq<char>)
    ensures
        -1 <= last_dot(s) < s.len(),
        last_dot(s) >= 0 ==> s[last_dot(s)] == '.',
        forall|j: int| last_dot(s) < j < s.len() ==> s[j] != '.',
    decreases s.len(),
{
    if s.len() > 0 && s.last() != '.' {
        lemma_last_dot_props(s.drop_last());
        assert forall|j: int| last_dot(s) < j < s.len() implies s[j] != '.' by {
            if j < s.len() - 1 {
                assert(s.drop_last()[j] == s[j]);
            }
        }
    }
}

proof fn lemma_last_dot_at(s: Seq<char>, p: int)
    requires
        0 <= p < s.len(),
        s[p] == '.',
        forall|j: int| p < j < s.len() ==> s[j] != '.',
    ensures
        last_dot(s) == p,
    decreases s.len(),
{
    if s.len() - 1 != p {
        assert(s.last() != '.');
        lemma_last_dot_at(s.drop_last(), p);
    }
}

proof fn lemma_decimal_no_dot(n: nat)
    ensures
        forall|j: int| 0 <= j < decimal_spec(n).len() ==> decimal_spec(n)[j] != '.',
    decreases n,
{
    if n >= 10 {
        lemma_decimal_no_dot(n / 10);
        let p = decimal_spec(n / 10);
        assert forall|j: int| 0 <= j < decimal_spec(n).len() implies decimal_spec(n)[j] != '.' by {
            if j < p.len() {
                assert(decimal_spec(n)[j] == p[j]);
            }
        }
    }
}

/// Loading a listed save reads the very file it was listed from: the file
/// name is the listed name followed by `.json`.
pub proof fn lemma_listed_save_file(file_name: Seq<char>)
    requires
        json_stem(file_name) is Some,
    ensures
        json_stem(file_name)->0 + dot_json() == file_name,
{
    lemma_last_dot_props(file_name);
    let d = last_dot(file_name);
    let tail = file_name.subrange(d + 1, file_name.len() as int);
    assert(tail == json_ext());
    assert forall|j: int| d < j < file_name.len() implies file_name[j] == dot_json()[j - d] by {
        assert(tail[j - d - 1] == file_name[j]);
    }
    assert(file_name.subrange(0, d) + dot_json() =~= file_name);
}

/// A save written under `save_file_name` is found again by `list_saves`
/// under exactly the name that the save button records for it with
/// `save_label`, provided the time stamp holds no dot.
pub proof fn lemma_new_save_listed(stamp: Seq<char>, attempt: nat)
    requires
        forall|j: int| 0 <= j < stamp.len() ==> stamp[j] != '.',
    ensures
        json_stem(save_file_spec(stamp, attempt)) == Some(
            trim_end_seq(save_file_spec(stamp, attempt), dot_json()),
        ),
{
    let suffix = if attempt == 0 {
        Seq::<char>::empty()
    } else {
        seq!['-'] + decimal_spec(attempt)
    };
    let x = seq!['s', 'a', 'v', 'e', '_'] + stamp + suffix;
    let f = save_file_spec(stamp, attempt);
    assert(f =~= x + dot_json());
    lemma_decimal_no_dot(attempt);
    assert forall|j: int| 0 <= j < x.len() implies x[j] != '.' by {
        if j >= 5 + stamp.len() && attempt != 0 {
            if j > 5 + stamp.len() {
                assert(x[j] == decimal_spec(attempt)[j - 6 - stamp.len()]);
            }
        }
    }
    lemma_last_dot_at(f, x.len() as int);
    assert(f.subrange(x.len() as int + 1, f.len() as int) =~= json_ext());
    assert(f.subrange(0, x.len() as int) =~= x);
    assert(f.subrange(f.len() - 5, f.len() as int) =~= dot_json());
    assert(f.subrange(0, f.len() - 5) =~= x);
    let t = x.subrange(x.len() - 5, x.len() as int);
    assert(t[0] == x[x.len() - 5]);
    assert(t != dot_json());
    assert(trim_end_seq(x, dot_json()) == x);
}

/// The first attempt is named `save_<stamp>.json`, and every later attempt
/// `n` is named `save_<stamp>-<n>.json`: the name ends in `-`, the decimal
/// digits of `n` and `.json`.
pub proof fn lemma_save_file_shape(stamp: Seq<char>, attempt: nat)
    ensures
        attempt == 0 ==> save_file_spec(stamp, attempt) == seq!['s', 'a', 'v', 'e', '_'] + stamp
            + seq!['.', 'j', 's', 'o', 'n'],
        attempt > 0 ==> ({
            let f = save_file_spec(stamp, attempt);
            let tail = seq!['-'] + decimal_spec(attempt) + seq!['.', 'j', 's', 'o', 'n'];
            &&& f.len() == 5 + stamp.len() + tail.len()
            &&& f.subrange(0, 5) == seq!['s', 'a', 'v', 'e', '_']
            &&& f.subrange(5, 5 + stamp.len() as int) == stamp
            &&& f.subrange(f.len() - tail.len(), f.len() as int) == tail
        }),
{
    let f = save_file_spec(stamp, attempt);
    if attempt == 0 {
        assert(f =~= seq!['s', 'a', 'v', 'e', '_'] + stamp + seq!['.', 'j', 's', 'o', 'n']);
    } else {
        let tail = seq!['-'] + decimal_spec(attempt) + seq!['.', 'j', 's', 'o', 'n'];
        assert(f =~= seq!['s', 'a', 'v', 'e', '_'] + stamp + tail);
        assert(f.subrange(0, 5) =~= seq!['s', 'a', 'v', 'e', '_']);
        assert(f.subrange(5, 5 + stamp.len() as int) =~= stamp);
        assert(f.subrange(f.len() - tail.len(), f.len() as int) =~= tail);
    }
}

/// Retrying a save never reuses a name: different attempts at the same time
/// stamp give different file names.
pub proof fn lemma_save_names_distinct(stamp: Seq<char>, a: nat, b: nat)
    requires
        a != b,
    ensures
        save_file_spec(stamp, a) != save_file_spec(stamp, b),
{
    let fa = save_file_spec(stamp, a);
    let fb = save_file_spec(stamp, b);
    let head = seq!['s', 'a', 'v', 'e', '_'] + stamp;
    let mid = |n: nat|
        if n == 0 {
            Seq::<char>::empty()
        } else {
            seq!['-'] + decimal_spec(n)
        };
    assert(fa =~= head + mid(a) + dot_json());
    assert(fb =~= head + mid(b) + dot_json());
    if fa == fb {
        let lo = head.len() as int;
        assert(fa.len() == lo + mid(a).len() + 5);
        assert(fb.len() == lo + mid(b).len() + 5);
        assert(mid(a).len() == mid(b).len());
        assert(fa.subrange(lo, lo + mid(a).len()) =~= mid(a));
        assert(fb.subrange(lo, lo + mid(b).len()) =~= mid(b));
        assert(mid(a) == mid(b));
        if a == 0 || b == 0 {
            crate::text::lemma_decimal_reads_back(a + b);
            assert(mid(a).len() == 0 || mid(b).len() == 0);
        } else {
            assert(mid(a).subrange(1, mid(a).len() as int) =~= decimal_spec(a));
            assert(mid(b).subrange(1, mid(b).len() as int) =~= decimal_spec(b));
            lemma_decimal_injective(a, b);
        }
    }
}

/// A name is listed as save `label` exactly when it is `label` followed by
/// `.json`, with `label` not empty (a bare `.json` is a hidden file, not a
/// save).
pub proof fn lemma_json_stem_iff(name: Seq<char>, label: Seq<char>)
    ensures
        json_stem(name) == Some(label) <==> (label.len() > 0 && name == label + dot_json()),
{
    if json_stem(name) == Some(label) {
        lemma_last_dot_props(name);
        lemma_listed_save_file(name);
    }
    if label.len() > 0 && name == label + dot_json() {
        let p = label.len() as int;
        assert(name[p] == '.');
        assert forall|j: int| p < j < name.len() implies name[j] != '.' by {
            assert(name[j] == dot_json()[j - p]);
        }
        lemma_last_dot_at(name, p);
        assert(name.subrange(p + 1, name.len() as int) =~= json_ext());
        assert(name.subrange(0, p) =~= label);
    }
}

/// A listing of one file shows that file's stem when it is a save, and
/// nothing otherwise.
pub proof fn lemma_listed_saves_single(name: Seq<char>)
    ensures
        listed_saves(seq![name]) == match json_stem(name) {
            Some(stem) => seq![stem],
            None => Seq::<Seq<char>>::empty(),
        },
{
    assert(seq![name].drop_last() =~= Seq::<Seq<char>>::empty());
    assert(listed_saves(Seq::<Seq<char>>::empty()) == Seq::<Seq<char>>::empty());
    match json_stem(name) {
        Some(stem) => {
            assert(Seq::<Seq<char>>::empty().push(stem) =~= seq![stem]);
        },
        None => {},
    }
}

/// Listing two runs of files one after the other shows the saves of the
/// first run, then those of the second: no save is skipped, repeated or
/// moved.
pub proof fn lemma_listed_saves_concat(a: Seq<Seq<char>>, b: Seq<Seq<char>>)
    ensures
        listed_saves(a + b) == listed_saves(a) + listed_saves(b),
    decreases b.len(),
{
    if b.len() == 0 {
        assert(a + b =~= a);
        assert(listed_saves(a) + listed_saves(b) =~= listed_saves(a));
    } else {
        let b0 = b.drop_last();
        lemma_listed_saves_concat(a, b0);
        assert((a + b).drop_last() =~= a + b0);
        assert((a + b).last() == b.last());
        match json_stem(b.last()) {
            Some(stem) => {
                assert(listed_saves(a) + listed_saves(b0).push(stem) =~= (listed_saves(a)
                    + listed_saves(b0)).push(stem));
            },
            None => {},
        }
    }
}

} // verus!
