//! Opening files with other applications: how the applications able to open
//! a file are named and ordered.
//!
//! Asking the system which applications can open a file, and launching
//! them, are the caller's part.

use crate::paths::{texts, file_stem_of, path_file_stem, paths_equal, same_path};
use vstd::prelude::*;

verus! {

/// An application able to open a file.
#[derive(Debug)]
pub struct AppInfo {
    pub name: String,
    pub path: String,
    pub is_default: bool,
}

/// What an [`AppInfo`] says, as text.
pub struct AppInfoView {
    pub name: Seq<char>,
    pub path: Seq<char>,
    pub is_default: bool,
}

impl View for AppInfo {
    type V = AppInfoView;

    open spec fn view(&self) -> AppInfoView {
        AppInfoView { name: self.name@, path: self.path@, is_default: self.is_default }
    }
}

/// The views of a sequence of applications.
pub open spec fn app_views(s: Seq<AppInfo>) -> Seq<AppInfoView> {
    s.map_values(|a: AppInfo| a@)
}

/// The name shown for an application: its file stem when `stem` has one,
/// else its full path.
pub open spec fn display_name(stem: Option<Seq<char>>, full_path: Seq<char>) -> Seq<char> {
    match stem {
        Some(s) => s,
        None => full_path,
    }
}

/// Picks the name shown for an application from its file stem (if it has
/// one) and its full path.
pub fn display_name_from(stem: Option<String>, full_path: &str) -> (r: String)
    ensures
        r@ == display_name(
            match stem {
                Some(s) => Some(s@),
                None => None,
            },
            full_path@,
        ),
{
    match stem {
        Some(s) => s,
        None => String::from_str(full_path),
    }
}

/// The name shown for the application at `app_path`: the bundle's file name
/// without its extension (`Preview` for `/Applications/Preview.app`), or the
/// whole path when it has no file name.
pub fn app_display_name(app_path: &str) -> (r: String)
    ensures
        r@ == display_name(file_stem_of(app_path@), app_path@),
{
    display_name_from(path_file_stem(app_path), app_path)
}

/// Lexicographic order of texts by character code. For valid UTF-8 text it
/// agrees with the byte order that `String`'s `Ord` uses, since UTF-8
/// preserves the order of code points.
pub open spec fn text_less(a: Seq<char>, b: Seq<char>) -> bool
    decreases a.len(),
{
    if a.len() == 0 {
        b.len() > 0
    } else if b.len() == 0 {
        false
    } else if a[0] != b[0] {
        (a[0] as int) < (b[0] as int)
    } else {
        text_less(a.drop_first(), b.drop_first())
    }
}

proof fn lemma_text_less_irreflexive(a: Seq<char>)
    ensures
        !text_less(a, a),
    decreases a.len(),
{
    if a.len() > 0 {
        lemma_text_less_irreflexive(a.drop_first());
    }
}

proof fn lemma_text_less_transitive(a: Seq<char>, b: Seq<char>, c: Seq<char>)
    requires
        text_less(a, b),
        text_less(b, c),
    ensures
        text_less(a, c),
    decreases a.len(),
{
    if a.len() > 0 && b.len() > 0 && c.len() > 0 {
        if a[0] == b[0] && b[0] == c[0] {
            lemma_text_less_transitive(a.drop_first(), b.drop_first(), c.drop_first());
        }
    }
}

proof fn lemma_text_less_total(a: Seq<char>, b: Seq<char>)
    requires
        a != b,
    ensures
        text_less(a, b) || text_less(b, a),
    decreases a.len(),
{
    if a.len() > 0 && b.len() > 0 {
        if a[0] == b[0] {
            if a.drop_first() == b.drop_first() {
                assert(a =~= seq![a[0]] + a.drop_first());
                assert(b =~= seq![b[0]] + b.drop_first());
            }
            lemma_text_less_total(a.drop_first(), b.drop_first());
        } else {
        }
    } else if a.len() == 0 && b.len() == 0 {
        assert(a =~= b);
    }
}

/// Whether `a` comes before `b` text-wise, character by character.
pub fn text_precedes(a: &str, b: &str) -> (r: bool)
    ensures
        r == text_less(a@, b@),
{
    let n = a.unicode_len();
    let m = b.unicode_len();
    let mut i: usize = 0;
    assert(a@.skip(0) =~= a@);
    assert(b@.skip(0) =~= b@);
    while i < n && i < m
        invariant
            n == a@.len(),
            m == b@.len(),
            i <= n,
            i <= m,
            text_less(a@, b@) == text_less(a@.skip(i as int), b@.skip(i as int)),
        decreases n - i,
    {
        let ca = a.get_char(i);
        let cb = b.get_char(i);
        let ghost sa = a@.skip(i as int);
        let ghost sb = b@.skip(i as int);
        assert(sa[0] == ca && sb[0] == cb);
        if ca != cb {
            return ca < cb;
        }
        assert(sa.drop_first() =~= a@.skip(i + 1));
        assert(sb.drop_first() =~= b@.skip(i + 1));
        i = i + 1;
    }
    i < m
}

/// `a` is listed before `b`: the default application comes first, the rest
/// by name.
pub open spec fn app_precedes(a: AppInfoView, b: AppInfoView) -> bool {
    (a.is_default && !b.is_default) || (a.is_default == b.is_default && text_less(a.name, b.name))
}

/// `a` and `b` rank alike: neither is listed before the other.
pub open spec fn same_rank(a: AppInfoView, b: AppInfoView) -> bool {
    a.is_default == b.is_default && a.name == b.name
}

/// The applications of `s` that rank like (`is_default`, `name`), in order.
pub open spec fn ranked_as(s: Seq<AppInfoView>, is_default: bool, name: Seq<char>) -> Seq<
    AppInfoView,
> {
    s.filter(|x: AppInfoView| x.is_default == is_default && x.name == name)
}

/// No application of `s` is listed after one it precedes.
pub open spec fn in_rank_order(s: Seq<AppInfoView>) -> bool {
    forall|i: int, j: int| 0 <= i < j < s.len() ==> !app_precedes(s[j], s[i])
}

/// `sorted` holds the applications of `apps`, default first and then by
/// name, and applications that rank alike keep their relative order.
pub open spec fn is_ranked(apps: Seq<AppInfoView>, sorted: Seq<AppInfoView>) -> bool {
    &&& sorted.len() == apps.len()
    &&& in_rank_order(sorted)
    &&& forall|d: bool, n: Seq<char>| #[trigger] ranked_as(sorted, d, n) == ranked_as(apps, d, n)
}

proof fn lemma_precedes_facts(x: AppInfoView, y: AppInfoView, z: AppInfoView)
    ensures
        !app_precedes(x, x),
        app_precedes(x, y) ==> !app_precedes(y, x),
        app_precedes(x, y) ==> !same_rank(x, y),
        app_precedes(x, y) && app_precedes(y, z) ==> app_precedes(x, z),
        app_precedes(x, y) && same_rank(y, z) ==> app_precedes(x, z),
        !app_precedes(x, y) && !same_rank(x, y) ==> app_precedes(y, x),
{
    lemma_text_less_irreflexive(x.name);
    if app_precedes(x, y) && app_precedes(y, x) {
        if x.is_default == y.is_default {
            lemma_text_less_transitive(x.name, y.name, x.name);
        }
    }
    if app_precedes(x, y) && app_precedes(y, z) {
        if x.is_default == y.is_default && y.is_default == z.is_default {
            lemma_text_less_transitive(x.name, y.name, z.name);
        }
    }
    if !app_precedes(x, y) && !same_rank(x, y) {
        if x.is_default == y.is_default {
            lemma_text_less_total(x.name, y.name);
        }
    }
}

proof fn lemma_ranked_as_absent(s: Seq<AppInfoView>, d: bool, n: Seq<char>)
    requires
        forall|t: int| 0 <= t < s.len() ==> !(#[trigger] s[t].is_default == d && s[t].name == n),
    ensures
        ranked_as(s, d, n) =~= Seq::<AppInfoView>::empty(),
{
    let pred = |x: AppInfoView| x.is_default == d && x.name == n;
    s.lemma_filter_len(pred);
    if s.filter(pred).len() > 0 {
        s.lemma_filter_pred(pred, 0);
        let x = s.filter(pred)[0];
        assert(s.filter(pred).contains(x));
        s.lemma_filter_contains_rev(pred, x);
    }
}

proof fn lemma_ranked_as_push(s: Seq<AppInfoView>, x: AppInfoView, d: bool, n: Seq<char>)
    ensures
        ranked_as(s.push(x), d, n) == (if x.is_default == d && x.name == n {
            ranked_as(s, d, n).push(x)
        } else {
            ranked_as(s, d, n)
        }),
{
    reveal_with_fuel(Seq::filter, 1);
    assert(s.push(x).drop_last() =~= s);
}

/// `a` comes before `b` in code-point order, decided at position `i`: the
/// two agree on their first `i` characters, and there either `a` ends while
/// `b` goes on, or `a`'s character has the smaller code point.
pub open spec fn first_difference_below(a: Seq<char>, b: Seq<char>, i: int) -> bool {
    &&& 0 <= i <= a.len()
    &&& i <= b.len()
    &&& a.take(i) == b.take(i)
    &&& ((i == a.len() && i < b.len()) || (i < a.len() && i < b.len() && (a[i] as int) < (
        b[i] as int)))
}

proof fn lemma_text_less_is_first_difference(a: Seq<char>, b: Seq<char>)
    ensures
        text_less(a, b) <==> exists|i: int| #[trigger] first_difference_below(a, b, i),
    decreases a.len(),
{
    if a.len() == 0 {
        if b.len() > 0 {
            assert(a.take(0) =~= b.take(0));
            assert(first_difference_below(a, b, 0));
        }
    } else if b.len() == 0 {
    } else if a[0] != b[0] {
        if (a[0] as int) < (b[0] as int) {
            assert(a.take(0) =~= b.take(0));
            assert(first_difference_below(a, b, 0));
        }
        assert forall|i: int| first_difference_below(a, b, i) implies i == 0 by {
            if i > 0 {
                assert(a.take(i)[0] == b.take(i)[0]);
            }
        }
    } else {
        let a1 = a.drop_first();
        let b1 = b.drop_first();
        lemma_text_less_is_first_difference(a1, b1);
        if text_less(a1, b1) {
            let j = choose|j: int| first_difference_below(a1, b1, j);
            assert(a.take(j + 1) =~= seq![a[0]] + a1.take(j));
            assert(b.take(j + 1) =~= seq![b[0]] + b1.take(j));
            assert(first_difference_below(a, b, j + 1));
        }
        assert forall|i: int| first_difference_below(a, b, i) implies first_difference_below(
            a1,
            b1,
            i - 1,
        ) by {
            assert(i > 0);
            assert(a1.take(i - 1) =~= a.take(i).drop_first());
            assert(b1.take(i - 1) =~= b.take(i).drop_first());
        }
    }
}

/// The order in which applications are listed: a default application comes
/// before any other, and among applications of equal standing `a` comes
/// before `b` exactly when `a`'s name is before `b`'s in code-point order
/// (the first differing character decides, and a name comes before any
/// longer name it begins), whatever the names' lengths.
pub proof fn lemma_apps_of_equal_standing_are_listed_by_name(a: AppInfoView, b: AppInfoView)
    ensures
        a.is_default && !b.is_default ==> app_precedes(a, b),
        !a.is_default && b.is_default ==> !app_precedes(a, b),
        a.is_default == b.is_default ==> (app_precedes(a, b) <==> exists|i: int|
            #[trigger] first_difference_below(a.name, b.name, i)),
{
    lemma_text_less_is_first_difference(a.name, b.name);
}

/// Whether `a` is listed before `b` (see [`app_precedes`]).
pub fn app_listed_before(a: &AppInfo, b: &AppInfo) -> (r: bool)
    ensures
        r == app_precedes(a@, b@),
{
    if a.is_default != b.is_default {
        a.is_default
    } else {
        text_precedes(a.name.as_str(), b.name.as_str())
    }
}

/// `apps` ordered for display: the default application first, then by
/// name; applications that rank alike keep the order they came in (a stable
/// sort).
pub fn sort_apps(apps: Vec<AppInfo>) -> (sorted: Vec<AppInfo>)
    ensures
        is_ranked(app_views(apps@), app_views(sorted@)),
{
    broadcast use Seq::filter_distributes_over_add;

    let ghost input = app_views(apps@);
    let mut rest = apps;
    let n = rest.len();
    let mut out: Vec<AppInfo> = Vec::new();
    let mut i: usize = 0;
    while i < n
        invariant
            n == input.len(),
            i <= n,
            rest@.len() == n - i,
            forall|t: int| 0 <= t < n - i ==> (#[trigger] rest@[t])@ == input[i + t],
            out@.len() == i,
            in_rank_order(app_views(out@)),
            forall|d: bool, nm: Seq<char>| #[trigger]
                ranked_as(app_views(out@), d, nm) == ranked_as(input.take(i as int), d, nm),
        decreases n - i,
    {
        let x = rest.remove(0);
        let ghost vx = x@;
        assert(vx == input[i as int]);
        let len = out.len();
        let mut k: usize = 0;
        while k < len && !app_listed_before(&x, &out[k])
            invariant
                len == out@.len(),
                k <= len,
                forall|t: int| 0 <= t < k ==> !app_precedes(x@, (#[trigger] out@[t])@),
            decreases len - k,
        {
            k = k + 1;
        }
        let ghost o = app_views(out@);
        proof {
            assert forall|t: int| k <= t < o.len() implies app_precedes(vx, #[trigger] o[t]) by {
                assert(app_precedes(vx, o[k as int]));
                if t > k {
                    assert(!app_precedes(o[t], o[k as int]));
                    lemma_precedes_facts(o[k as int], o[t], vx);
                    lemma_precedes_facts(vx, o[k as int], o[t]);
                    lemma_precedes_facts(o[t], o[k as int], vx);
                }
            }
        }
        out.insert(k, x);
        proof {
            let v = app_views(out@);
            let before = o.take(k as int);
            let after = o.skip(k as int);
            assert(o =~= before + after);
            assert(v =~= before + seq![vx] + after);
            assert(input.take(i + 1) =~= input.take(i as int).push(vx));
            assert forall|d: bool, nm: Seq<char>| #[trigger]
                ranked_as(v, d, nm) == ranked_as(input.take(i + 1), d, nm) by {
                lemma_ranked_as_push(input.take(i as int), vx, d, nm);
                lemma_ranked_as_push(Seq::<AppInfoView>::empty(), vx, d, nm);
                assert(seq![vx] =~= Seq::<AppInfoView>::empty().push(vx));
                assert(ranked_as(Seq::<AppInfoView>::empty(), d, nm) =~= Seq::<AppInfoView>::empty());
                assert(ranked_as(o, d, nm) == ranked_as(before, d, nm) + ranked_as(after, d, nm));
                assert(ranked_as(v, d, nm) == ranked_as(before, d, nm) + ranked_as(seq![vx], d, nm)
                    + ranked_as(after, d, nm));
                if vx.is_default == d && vx.name == nm {
                    assert forall|t: int| 0 <= t < after.len() implies !(
                    #[trigger] after[t].is_default == d && after[t].name == nm) by {
                        assert(after[t] == o[k + t]);
                        lemma_precedes_facts(vx, o[k + t], vx);
                    }
                    lemma_ranked_as_absent(after, d, nm);
                    assert(ranked_as(seq![vx], d, nm) =~= seq![vx]);
                    assert(ranked_as(v, d, nm) =~= ranked_as(o, d, nm).push(vx));
                } else {
                    assert(ranked_as(seq![vx], d, nm) =~= Seq::<AppInfoView>::empty());
                    assert(ranked_as(v, d, nm) =~= ranked_as(o, d, nm));
                }
            }
            assert forall|a: int, b: int| 0 <= a < b < v.len() implies !app_precedes(v[b], v[a]) by {
                if b < k {
                } else if b == k {
                    assert(v[a] == o[a]);
                } else if a < k {
                    assert(v[a] == o[a]);
                    assert(v[b] == o[b - 1]);
                } else if a == k {
                    assert(v[b] == o[b - 1]);
                    lemma_precedes_facts(vx, o[b - 1], vx);
                } else {
                    assert(v[a] == o[a - 1]);
                    assert(v[b] == o[b - 1]);
                }
            }
        }
        i = i + 1;
    }
    proof {
        assert(input.take(n as int) =~= input);
    }
    out
}

/// The entry for the application at `found`, before ordering.
pub open spec fn found_app(found: Seq<char>, default_app: Option<Seq<char>>) -> AppInfoView {
    AppInfoView {
        name: display_name(file_stem_of(found), found),
        path: found,
        is_default: match default_app {
            Some(d) => same_path(d, found),
            None => false,
        },
    }
}

/// The entries for the application paths `found`, in order, before ordering.
pub open spec fn found_apps(found: Seq<Seq<char>>, default_app: Option<Seq<char>>) -> Seq<
    AppInfoView,
> {
    Seq::new(found.len(), |i: int| found_app(found[i], default_app))
}

/// The text of an optional string.
pub open spec fn opt_str_text(o: Option<&str>) -> Option<Seq<char>> {
    match o {
        Some(s) => Some(s@),
        None => None,
    }
}

/// The applications able to open a file, ready for display: one entry per
/// application path found, named by [`app_display_name`] and marked as the
/// default when its path is the same path as `default_app`, then ordered by
/// [`sort_apps`].
pub fn rank_apps(found: &Vec<String>, default_app: Option<&str>) -> (r: Vec<AppInfo>)
    ensures
        is_ranked(found_apps(texts(found@), opt_str_text(default_app)), app_views(r@)),
{
    let ghost dflt = opt_str_text(default_app);
    let n = found.len();
    let mut apps: Vec<AppInfo> = Vec::new();
    let mut i: usize = 0;
    while i < n
        invariant
            n == found@.len(),
            i <= n,
            dflt == opt_str_text(default_app),
            app_views(apps@) == found_apps(texts(found@.take(i as int)), dflt),
        decreases n - i,
    {
        let path = &found[i];
        let is_default = match default_app {
            Some(d) => paths_equal(d, path.as_str()),
            None => false,
        };
        let app = AppInfo { name: app_display_name(path.as_str()), path: path.clone(), is_default };
        let ghost prev = apps@;
        apps.push(app);
        proof {
            assert(app@ == found_app(found@[i as int]@, dflt));
            let before = texts(found@.take(i as int));
            let now = texts(found@.take(i + 1));
            assert(now.len() == i + 1);
            assert forall|t: int| 0 <= t < i implies now[t] == before[t] by {
                assert(found@.take(i + 1)[t] == found@.take(i as int)[t]);
            }
            assert(now[i as int] == found@[i as int]@);
            assert(app_views(apps@) =~= app_views(prev).push(app@));
            assert(app_views(apps@) =~= found_apps(texts(found@.take(i + 1)), dflt));
        }
        i = i + 1;
    }
    proof {
        assert(found@.take(n as int) =~= found@);
    }
    sort_apps(apps)
}

} // verus!
