//! The catalogue of data categories a clone can carry over.
//!
//! A clone copies the files of the selected categories. The categories that
//! are `default_on` (settings, extensions and extension options) form the
//! isolated-template default: selecting only those copies no personal data.
//! The others are opt-in and relax isolation by the user's explicit choice.
//!
//! Each entry is a file or directory name in the profile directory; SQLite
//! backed categories also list their `-journal` siblings.
use vstd::prelude::*;

use crate::text::{same_text, string_views};

verus! {

/// A user-facing group of profile files that can be carried over.
#[derive(Clone, Copy, Debug)]
pub struct Category {
    /// Stable identifier (kebab-case), used in `CloneOptions::categories`.
    pub id: &'static str,
    /// Human-readable label shown in the selector.
    pub label: &'static str,
    /// Profile file or directory names this category copies.
    pub entries: &'static [&'static str],
    /// Whether this category is preselected (the isolated-template default set).
    pub default_on: bool,
    /// Whether this category carries personal data.
    pub sensitive: bool,
}

/// The mathematical content of a [`Category`].
pub struct CategoryView {
    pub id: Seq<char>,
    pub label: Seq<char>,
    pub entries: Seq<Seq<char>>,
    pub default_on: bool,
    pub sensitive: bool,
}

pub open spec fn str_views(s: Seq<&'static str>) -> Seq<Seq<char>> {
    s.map_values(|e: &'static str| e@)
}

impl View for Category {
    type V = CategoryView;

    open spec fn view(&self) -> CategoryView {
        CategoryView {
            id: self.id@,
            label: self.label@,
            entries: str_views(self.entries@),
            default_on: self.default_on,
            sensitive: self.sensitive,
        }
    }
}

pub open spec fn cat(
    id: Seq<char>,
    label: Seq<char>,
    entries: Seq<Seq<char>>,
    default_on: bool,
    sensitive: bool,
) -> CategoryView {
    CategoryView { id, label, entries, default_on, sensitive }
}

/// All carry-over categories, in display order.
pub open spec fn catalogue() -> Seq<CategoryView> {
    seq![
        cat("settings"@, "Settings & appearance"@,
            seq!["Preferences"@, "Secure Preferences"@], true, false),
        cat("extensions"@, "Extensions"@,
            seq!["Extensions"@, "Extension State"@, "Extension Rules"@,
                "Extension Scripts"@, "DNR Extension Rules"@], true, false),
        cat("extension-options"@, "Extension options"@,
            seq!["Local Extension Settings"@, "Sync Extension Settings"@,
                "Managed Extension Settings"@], true, false),
        cat("bookmarks"@, "Bookmarks"@, seq!["Bookmarks"@, "Bookmarks.bak"@], false, false),
        cat("notes"@, "Notes"@, seq!["Notes"@], false, false),
        cat("history"@, "History"@,
            seq!["History"@, "History-journal"@, "Top Sites"@, "Top Sites-journal"@,
                "Visited Links"@, "Shortcuts"@, "Shortcuts-journal"@, "Favicons"@,
                "Favicons-journal"@], false, true),
        cat("cookies"@, "Cookies"@,
            seq!["Cookies"@, "Cookies-journal"@, "Safe Browsing Cookies"@,
                "Safe Browsing Cookies-journal"@], false, true),
        cat("autofill"@, "Autofill & cards"@,
            seq!["Web Data"@, "Web Data-journal"@, "Account Web Data"@,
                "Account Web Data-journal"@], false, true),
        cat("passwords"@, "Saved passwords"@,
            seq!["Login Data"@, "Login Data-journal"@, "Login Data For Account"@,
                "Login Data For Account-journal"@], false, true),
        cat("sessions"@, "Open tabs & sessions"@,
            seq!["Sessions"@, "Session Storage"@, "Current Session"@, "Current Tabs"@,
                "Last Session"@, "Last Tabs"@], false, true),
        cat("site-storage"@, "Site storage"@,
            seq!["Local Storage"@, "IndexedDB"@, "Service Worker"@, "File System"@,
                "Storage"@, "WebStorage"@, "Shared Dictionary"@], false, true),
        cat("mail"@, "Mail, calendar & contacts"@,
            seq!["Calendar"@, "Calendar-journal"@, "Contacts"@, "Contacts-journal"@,
                "MailSearchDB"@, "MailSearchDB-journal"@], false, true),
    ]
}

pub open spec fn category_views(s: Seq<Category>) -> Seq<CategoryView> {
    s.map_values(|c: Category| c@)
}

/// All carry-over categories, in display order.
pub fn categories() -> (r: Vec<Category>)
    ensures
        category_views(r@) =~= catalogue(),
{
    let v: Vec<Category> = vec![
        Category {
            id: "settings",
            label: "Settings & appearance",
            entries: &["Preferences", "Secure Preferences"],
            default_on: true,
            sensitive: false,
        },
        Category {
            id: "extensions",
            label: "Extensions",
            entries: &["Extensions", "Extension State", "Extension Rules", "Extension Scripts", "DNR Extension Rules"],
            default_on: true,
            sensitive: false,
        },
        Category {
            id: "extension-options",
            label: "Extension options",
            entries: &["Local Extension Settings", "Sync Extension Settings", "Managed Extension Settings"],
            default_on: true,
            sensitive: false,
        },
        Category {
            id: "bookmarks",
            label: "Bookmarks",
            entries: &["Bookmarks", "Bookmarks.bak"],
            default_on: false,
            sensitive: false,
        },
        Category {
            id: "notes",
            label: "Notes",
            entries: &["Notes"],
            default_on: false,
            sensitive: false,
        },
        Category {
            id: "history",
            label: "History",
            entries: &["History", "History-journal", "Top Sites", "Top Sites-journal", "Visited Links", "Shortcuts", "Shortcuts-journal", "Favicons", "Favicons-journal"],
            default_on: false,
            sensitive: true,
        },
        Category {
            id: "cookies",
            label: "Cookies",
            entries: &["Cookies", "Cookies-journal", "Safe Browsing Cookies", "Safe Browsing Cookies-journal"],
            default_on: false,
            sensitive: true,
        },
        Category {
            id: "autofill",
            label: "Autofill & cards",
            entries: &["Web Data", "Web Data-journal", "Account Web Data", "Account Web Data-journal"],
            default_on: false,
            sensitive: true,
        },
        Category {
            id: "passwords",
            label: "Saved passwords",
            entries: &["Login Data", "Login Data-journal", "Login Data For Account", "Login Data For Account-journal"],
            default_on: false,
            sensitive: true,
        },
        Category {
            id: "sessions",
            label: "Open tabs & sessions",
            entries: &["Sessions", "Session Storage", "Current Session", "Current Tabs", "Last Session", "Last Tabs"],
            default_on: false,
            sensitive: true,
        },
        Category {
            id: "site-storage",
            label: "Site storage",
            entries: &["Local Storage", "IndexedDB", "Service Worker", "File System", "Storage", "WebStorage", "Shared Dictionary"],
            default_on: false,
            sensitive: true,
        },
        Category {
            id: "mail",
            label: "Mail, calendar & contacts",
            entries: &["Calendar", "Calendar-journal", "Contacts", "Contacts-journal", "MailSearchDB", "MailSearchDB-journal"],
            default_on: false,
            sensitive: true,
        },
    ];
    assert(str_views(v@[0].entries@) =~= seq!["Preferences"@, "Secure Preferences"@]);
    assert(str_views(v@[1].entries@) =~= seq!["Extensions"@, "Extension State"@, "Extension Rules"@, "Extension Scripts"@, "DNR Extension Rules"@]);
    assert(str_views(v@[2].entries@) =~= seq!["Local Extension Settings"@, "Sync Extension Settings"@, "Managed Extension Settings"@]);
    assert(str_views(v@[3].entries@) =~= seq!["Bookmarks"@, "Bookmarks.bak"@]);
    assert(str_views(v@[4].entries@) =~= seq!["Notes"@]);
    assert(str_views(v@[5].entries@) =~= seq!["History"@, "History-journal"@, "Top Sites"@, "Top Sites-journal"@, "Visited Links"@, "Shortcuts"@, "Shortcuts-journal"@, "Favicons"@, "Favicons-journal"@]);
    assert(str_views(v@[6].entries@) =~= seq!["Cookies"@, "Cookies-journal"@, "Safe Browsing Cookies"@, "Safe Browsing Cookies-journal"@]);
    assert(str_views(v@[7].entries@) =~= seq!["Web Data"@, "Web Data-journal"@, "Account Web Data"@, "Account Web Data-journal"@]);
    assert(str_views(v@[8].entries@) =~= seq!["Login Data"@, "Login Data-journal"@, "Login Data For Account"@, "Login Data For Account-journal"@]);
    assert(str_views(v@[9].entries@) =~= seq!["Sessions"@, "Session Storage"@, "Current Session"@, "Current Tabs"@, "Last Session"@, "Last Tabs"@]);
    assert(str_views(v@[10].entries@) =~= seq!["Local Storage"@, "IndexedDB"@, "Service Worker"@, "File System"@, "Storage"@, "WebStorage"@, "Shared Dictionary"@]);
    assert(str_views(v@[11].entries@) =~= seq!["Calendar"@, "Calendar-journal"@, "Contacts"@, "Contacts-journal"@, "MailSearchDB"@, "MailSearchDB-journal"@]);
    v
}

} // verus!

verus! {

pub open spec fn ids_distinct(cs: Seq<CategoryView>) -> bool {
    forall|i: int, j: int| 0 <= i < j < cs.len() ==> cs[i].id != cs[j].id
}

/// Every category id in the catalogue is unique.
pub proof fn lemma_category_ids_unique()
    ensures
        ids_distinct(catalogue()),
{
    reveal_strlit("settings");
    reveal_strlit("extensions");
    reveal_strlit("extension-options");
    reveal_strlit("bookmarks");
    reveal_strlit("notes");
    reveal_strlit("history");
    reveal_strlit("cookies");
    reveal_strlit("autofill");
    reveal_strlit("passwords");
    reveal_strlit("sessions");
    reveal_strlit("site-storage");
    reveal_strlit("mail");
    let c = catalogue();
    assert forall|i: int, j: int| 0 <= i < j < c.len() implies c[i].id != c[j].id by {
        if c[i].id.len() == c[j].id.len() {
            if c[i].id[0] == c[j].id[0] {
                assert(c[i].id[2] != c[j].id[2]);
            } else {
                assert(c[i].id[0] != c[j].id[0]);
            }
        }
    }
}

} // verus!

verus! {

/// The category of the catalogue whose id is `id`, if any.
pub open spec fn lookup(id: Seq<char>) -> Option<CategoryView> {
    if exists|i: int| 0 <= i < catalogue().len() && #[trigger] catalogue()[i].id == id {
        Some(catalogue()[choose|i: int| 0 <= i < catalogue().len() && #[trigger] catalogue()[i].id == id])
    } else {
        None
    }
}

/// `out` extended, in order, by those of `es` it does not hold yet.
pub open spec fn add_new(out: Seq<Seq<char>>, es: Seq<Seq<char>>) -> Seq<Seq<char>>
    decreases es.len(),
{
    if es.len() == 0 {
        out
    } else {
        let o = add_new(out, es.drop_last());
        if o.contains(es.last()) {
            o
        } else {
            o.push(es.last())
        }
    }
}

/// The deduplicated, order-preserving union of the entries of the known ids.
pub open spec fn entries_of_ids(ids: Seq<Seq<char>>) -> Seq<Seq<char>>
    decreases ids.len(),
{
    if ids.len() == 0 {
        Seq::empty()
    } else {
        let p = entries_of_ids(ids.drop_last());
        match lookup(ids.last()) {
            Some(c) => add_new(p, c.entries),
            None => p,
        }
    }
}

/// The ids of the preselected categories among `cs`, in order.
pub open spec fn default_ids_of(cs: Seq<CategoryView>) -> Seq<Seq<char>>
    decreases cs.len(),
{
    if cs.len() == 0 {
        Seq::empty()
    } else {
        let p = default_ids_of(cs.drop_last());
        if cs.last().default_on {
            p.push(cs.last().id)
        } else {
            p
        }
    }
}

/// The deduplicated union of the entries of the preselected categories among `cs`.
pub open spec fn default_entries_of(cs: Seq<CategoryView>) -> Seq<Seq<char>>
    decreases cs.len(),
{
    if cs.len() == 0 {
        Seq::empty()
    } else {
        let p = default_entries_of(cs.drop_last());
        if cs.last().default_on {
            add_new(p, cs.last().entries)
        } else {
            p
        }
    }
}

proof fn lemma_lookup_member(i: int)
    requires
        0 <= i < catalogue().len(),
    ensures
        lookup(catalogue()[i].id) == Some(catalogue()[i]),
{
    lemma_category_ids_unique();
    let id = catalogue()[i].id;
    assert(catalogue()[i].id == id);
    let k = choose|k: int| 0 <= k < catalogue().len() && #[trigger] catalogue()[k].id == id;
    assert(k == i);
}

/// Look up a category by `id`.
pub fn category(id: &str) -> (r: Option<Category>)
    ensures
        match r {
            Some(c) => lookup(id@) == Some(c@),
            None => lookup(id@) is None,
        },
{
    let cats = categories();
    let n = cats.len();
    for i in 0..n
        invariant
            n == cats.len(),
            category_views(cats@) == catalogue(),
            forall|j: int| 0 <= j < i ==> catalogue()[j].id != id@,
    {
        assert(category_views(cats@)[i as int] == cats@[i as int]@);
        if same_text(cats[i].id, id) {
            proof {
                lemma_lookup_member(i as int);
            }
            return Some(cats[i]);
        }
    }
    assert forall|i: int| 0 <= i < catalogue().len() implies #[trigger] catalogue()[i].id != id@ by {}
    None
}

/// The ids of the preselected (default) categories.
pub fn default_category_ids() -> (r: Vec<&'static str>)
    ensures
        str_views(r@) == default_ids_of(catalogue()),
{
    let cats = categories();
    let n = cats.len();
    let mut out: Vec<&'static str> = Vec::new();
    for i in 0..n
        invariant
            n == cats.len(),
            category_views(cats@) == catalogue(),
            str_views(out@) == default_ids_of(catalogue().take(i as int)),
    {
        assert(category_views(cats@)[i as int] == cats@[i as int]@);
        assert(catalogue().take(i + 1).drop_last() =~= catalogue().take(i as int));
        if cats[i].default_on {
            out.push(cats[i].id);
        }
        assert(str_views(out@) =~= default_ids_of(catalogue().take(i + 1)));
    }
    assert(catalogue().take(n as int) =~= catalogue());
    out
}

/// Whether `out` holds an entry equal to `e`.
fn holds_entry(out: &Vec<&'static str>, e: &str) -> (r: bool)
    ensures
        r == str_views(out@).contains(e@),
{
    let n = out.len();
    for i in 0..n
        invariant
            n == out.len(),
            forall|j: int| 0 <= j < i ==> out@[j]@ != e@,
    {
        if same_text(out[i], e) {
            assert(str_views(out@)[i as int] == e@);
            return true;
        }
    }
    assert forall|j: int| 0 <= j < str_views(out@).len() implies str_views(out@)[j] != e@ by {}
    false
}

/// Append to `out`, in order, the entries of `es` it does not hold yet.
fn add_entries(out: &mut Vec<&'static str>, es: &'static [&'static str])
    ensures
        str_views(final(out)@) == add_new(str_views(old(out)@), str_views(es@)),
{
    let ghost start = str_views(out@);
    let n = es.len();
    for i in 0..n
        invariant
            n == es@.len(),
            str_views(out@) == add_new(start, str_views(es@).take(i as int)),
    {
        let e = es[i];
        let ghost pre = str_views(out@);
        assert(str_views(es@).take(i + 1).drop_last() =~= str_views(es@).take(i as int));
        assert(str_views(es@).take(i + 1).last() == e@);
        if !holds_entry(out, e) {
            out.push(e);
            assert(str_views(out@) =~= pre.push(e@));
        }
    }
    assert(str_views(es@).take(n as int) =~= str_views(es@));
}

/// The deduplicated, order-preserving union of profile entries for the given
/// category ids. Unknown ids are ignored.
pub fn entries_for(ids: &[String]) -> (r: Vec<&'static str>)
    ensures
        str_views(r@) == entries_of_ids(string_views(ids@)),
{
    let mut out: Vec<&'static str> = Vec::new();
    let n = ids.len();
    for i in 0..n
        invariant
            n == ids@.len(),
            str_views(out@) == entries_of_ids(string_views(ids@).take(i as int)),
    {
        assert(string_views(ids@).take(i + 1).drop_last() =~= string_views(ids@).take(i as int));
        assert(string_views(ids@).take(i + 1).last() == ids@[i as int]@);
        match category(ids[i].as_str()) {
            Some(c) => add_entries(&mut out, c.entries),
            None => {},
        }
    }
    assert(string_views(ids@).take(n as int) =~= string_views(ids@));
    out
}

/// The entries for the default (isolated-template) category set.
pub fn default_entries() -> (r: Vec<&'static str>)
    ensures
        str_views(r@) == default_entries_of(catalogue()),
{
    let cats = categories();
    let n = cats.len();
    let mut out: Vec<&'static str> = Vec::new();
    for i in 0..n
        invariant
            n == cats.len(),
            category_views(cats@) == catalogue(),
            str_views(out@) == default_entries_of(catalogue().take(i as int)),
    {
        assert(category_views(cats@)[i as int] == cats@[i as int]@);
        assert(catalogue().take(i + 1).drop_last() =~= catalogue().take(i as int));
        if cats[i].default_on {
            add_entries(&mut out, cats[i].entries);
        }
    }
    assert(catalogue().take(n as int) =~= catalogue());
    out
}

} // verus!

verus! {

proof fn lemma_add_new(out: Seq<Seq<char>>, es: Seq<Seq<char>>)
    ensures
        out.no_duplicates() ==> add_new(out, es).no_duplicates(),
        forall|x: Seq<char>| #[trigger] add_new(out, es).contains(x) <==> (out.contains(x) || es.contains(x)),
    decreases es.len(),
{
    if es.len() > 0 {
        lemma_add_new(out, es.drop_last());
        let o = add_new(out, es.drop_last());
        assert forall|x: Seq<char>| #[trigger] add_new(out, es).contains(x) <==> (out.contains(x) || es.contains(x)) by {
            if es.drop_last().contains(x) {
                let k = choose|k: int| 0 <= k < es.drop_last().len() && es.drop_last()[k] == x;
                assert(es[k] == x);
            }
            if es.contains(x) && x != es.last() {
                let k = choose|k: int| 0 <= k < es.len() && es[k] == x;
                assert(es.drop_last()[k] == x);
            }
            if !o.contains(es.last()) && o.push(es.last()).contains(x) && x != es.last() {
                let k = choose|k: int| 0 <= k < o.push(es.last()).len() && o.push(es.last())[k] == x;
                assert(o[k] == x);
            }
            if o.contains(x) && !o.contains(es.last()) {
                let k = choose|k: int| 0 <= k < o.len() && o[k] == x;
                assert(o.push(es.last())[k] == x);
            }
            if x == es.last() && !o.contains(es.last()) {
                assert(o.push(es.last())[o.len() as int] == x);
            }
        }
    }
}

/// Whether some known id among `ids` names a category that lists `x`.
pub open spec fn listed_by_some(ids: Seq<Seq<char>>, x: Seq<char>) -> bool {
    exists|i: int| 0 <= i < ids.len() && #[trigger] lists(ids[i], x)
}

/// Whether `id` names a category of the catalogue that lists `x`.
pub open spec fn lists(id: Seq<char>, x: Seq<char>) -> bool {
    match lookup(id) {
        Some(c) => c.entries.contains(x),
        None => false,
    }
}

/// The union of the entries of the given categories never repeats an entry,
/// and holds exactly the entries that some known id among them lists:
/// unknown ids contribute nothing.
pub proof fn lemma_entries_for_is_dedup_union(ids: Seq<Seq<char>>)
    ensures
        entries_of_ids(ids).no_duplicates(),
        forall|x: Seq<char>| #[trigger] entries_of_ids(ids).contains(x) <==> listed_by_some(ids, x),
    decreases ids.len(),
{
    if ids.len() > 0 {
        let init = ids.drop_last();
        lemma_entries_for_is_dedup_union(init);
        let p = entries_of_ids(init);
        match lookup(ids.last()) {
            Some(c) => lemma_add_new(p, c.entries),
            None => {},
        }
        assert forall|x: Seq<char>| #[trigger] entries_of_ids(ids).contains(x) <==> listed_by_some(ids, x) by {
            if listed_by_some(init, x) {
                let i = choose|i: int| 0 <= i < init.len() && #[trigger] lists(init[i], x);
                assert(ids[i] == init[i]);
                assert(lists(ids[i], x));
            }
            if listed_by_some(ids, x) {
                let i = choose|i: int| 0 <= i < ids.len() && #[trigger] lists(ids[i], x);
                if i < ids.len() - 1 {
                    assert(init[i] == ids[i]);
                    assert(lists(init[i], x));
                } else {
                    assert(lists(ids.last(), x));
                }
            }
            if lists(ids.last(), x) {
                assert(lists(ids[ids.len() - 1], x));
            }
        }
    } else {
        assert(entries_of_ids(ids) =~= Seq::<Seq<char>>::empty());
    }
}

proof fn lemma_defaults_prefix(k: int)
    requires
        0 <= k <= catalogue().len(),
    ensures
        default_entries_of(catalogue().take(k)) == entries_of_ids(default_ids_of(catalogue().take(k))),
    decreases k,
{
    if k > 0 {
        let cs = catalogue().take(k);
        assert(cs.drop_last() =~= catalogue().take(k - 1));
        lemma_defaults_prefix(k - 1);
        if cs.last().default_on {
            lemma_lookup_member(k - 1);
            let ids = default_ids_of(cs);
            assert(ids.drop_last() == default_ids_of(cs.drop_last()));
        }
    } else {
        assert(catalogue().take(0) =~= Seq::<CategoryView>::empty());
    }
}

/// The default entry set is exactly what `entries_for` gives for the ids of
/// the default categories.
pub proof fn lemma_default_entries_are_entries_for_default_ids()
    ensures
        default_entries_of(catalogue()) == entries_of_ids(default_ids_of(catalogue())),
{
    lemma_defaults_prefix(catalogue().len() as int);
    assert(catalogue().take(catalogue().len() as int) =~= catalogue());
}

proof fn lemma_default_entries_members(k: int, x: Seq<char>)
    requires
        0 <= k <= catalogue().len(),
    ensures
        default_entries_of(catalogue().take(k)).contains(x) ==> exists|i: int|
            0 <= i < k && catalogue()[i].default_on && #[trigger] catalogue()[i].entries.contains(x),
    decreases k,
{
    if k > 0 {
        let cs = catalogue().take(k);
        assert(cs.drop_last() =~= catalogue().take(k - 1));
        lemma_default_entries_members(k - 1, x);
        if cs.last().default_on {
            lemma_add_new(default_entries_of(cs.drop_last()), cs.last().entries);
        }
        if default_entries_of(cs).contains(x) && !default_entries_of(catalogue().take(k - 1)).contains(x) {
            assert(catalogue()[k - 1].entries.contains(x));
        }
    } else {
        assert(catalogue().take(0) =~= Seq::<CategoryView>::empty());
    }
}

/// One of the files of the isolated-template categories (settings,
/// extensions, extension options).
pub open spec fn template_entry(x: Seq<char>) -> bool {
    ||| x == "Preferences"@
    ||| x == "Secure Preferences"@
    ||| x == "Extensions"@
    ||| x == "Extension State"@
    ||| x == "Extension Rules"@
    ||| x == "Extension Scripts"@
    ||| x == "DNR Extension Rules"@
    ||| x == "Local Extension Settings"@
    ||| x == "Sync Extension Settings"@
    ||| x == "Managed Extension Settings"@
}

/// One of the files of the categories that carry personal data.
pub open spec fn personal_entry(x: Seq<char>) -> bool {
    ||| x == "History"@
    ||| x == "History-journal"@
    ||| x == "Top Sites"@
    ||| x == "Top Sites-journal"@
    ||| x == "Visited Links"@
    ||| x == "Shortcuts"@
    ||| x == "Shortcuts-journal"@
    ||| x == "Favicons"@
    ||| x == "Favicons-journal"@
    ||| x == "Cookies"@
    ||| x == "Cookies-journal"@
    ||| x == "Safe Browsing Cookies"@
    ||| x == "Safe Browsing Cookies-journal"@
    ||| x == "Web Data"@
    ||| x == "Web Data-journal"@
    ||| x == "Account Web Data"@
    ||| x == "Account Web Data-journal"@
    ||| x == "Login Data"@
    ||| x == "Login Data-journal"@
    ||| x == "Login Data For Account"@
    ||| x == "Login Data For Account-journal"@
    ||| x == "Sessions"@
    ||| x == "Session Storage"@
    ||| x == "Current Session"@
    ||| x == "Current Tabs"@
    ||| x == "Last Session"@
    ||| x == "Last Tabs"@
    ||| x == "Local Storage"@
    ||| x == "IndexedDB"@
    ||| x == "Service Worker"@
    ||| x == "File System"@
    ||| x == "Storage"@
    ||| x == "WebStorage"@
    ||| x == "Shared Dictionary"@
    ||| x == "Calendar"@
    ||| x == "Calendar-journal"@
    ||| x == "Contacts"@
    ||| x == "Contacts-journal"@
    ||| x == "MailSearchDB"@
    ||| x == "MailSearchDB-journal"@
}

proof fn lemma_template_category_entries(d: int, x: Seq<char>)
    requires
        0 <= d < 3,
        catalogue()[d].entries.contains(x),
    ensures
        template_entry(x),
{
    let k = choose|k: int| 0 <= k < catalogue()[d].entries.len() && catalogue()[d].entries[k] == x;
}

proof fn lemma_personal_category_entries(p: int, x: Seq<char>)
    requires
        5 <= p < catalogue().len(),
        catalogue()[p].entries.contains(x),
    ensures
        personal_entry(x),
{
    let k = choose|k: int| 0 <= k < catalogue()[p].entries.len() && catalogue()[p].entries[k] == x;
}

/// No file of the isolated template is a file that carries personal data.
pub proof fn lemma_template_entries_are_not_personal(x: Seq<char>)
    ensures
        template_entry(x) ==> !personal_entry(x),
{
    reveal_strlit("Account Web Data");
    reveal_strlit("Account Web Data-journal");
    reveal_strlit("Calendar");
    reveal_strlit("Calendar-journal");
    reveal_strlit("Contacts");
    reveal_strlit("Contacts-journal");
    reveal_strlit("Cookies");
    reveal_strlit("Cookies-journal");
    reveal_strlit("Current Session");
    reveal_strlit("Current Tabs");
    reveal_strlit("DNR Extension Rules");
    reveal_strlit("Extension Rules");
    reveal_strlit("Extension Scripts");
    reveal_strlit("Extension State");
    reveal_strlit("Extensions");
    reveal_strlit("Favicons");
    reveal_strlit("Favicons-journal");
    reveal_strlit("File System");
    reveal_strlit("History");
    reveal_strlit("History-journal");
    reveal_strlit("IndexedDB");
    reveal_strlit("Last Session");
    reveal_strlit("Last Tabs");
    reveal_strlit("Local Extension Settings");
    reveal_strlit("Local Storage");
    reveal_strlit("Login Data");
    reveal_strlit("Login Data For Account");
    reveal_strlit("Login Data For Account-journal");
    reveal_strlit("Login Data-journal");
    reveal_strlit("MailSearchDB");
    reveal_strlit("MailSearchDB-journal");
    reveal_strlit("Managed Extension Settings");
    reveal_strlit("Preferences");
    reveal_strlit("Safe Browsing Cookies");
    reveal_strlit("Safe Browsing Cookies-journal");
    reveal_strlit("Secure Preferences");
    reveal_strlit("Service Worker");
    reveal_strlit("Session Storage");
    reveal_strlit("Sessions");
    reveal_strlit("Shared Dictionary");
    reveal_strlit("Shortcuts");
    reveal_strlit("Shortcuts-journal");
    reveal_strlit("Storage");
    reveal_strlit("Sync Extension Settings");
    reveal_strlit("Top Sites");
    reveal_strlit("Top Sites-journal");
    reveal_strlit("Visited Links");
    reveal_strlit("Web Data");
    reveal_strlit("Web Data-journal");
    reveal_strlit("WebStorage");
    assert("Account Web Data"@.len() == 16 && "Account Web Data"@[0] == 'A');
    assert("Account Web Data-journal"@.len() == 24 && "Account Web Data-journal"@[0] == 'A');
    assert("Calendar"@.len() == 8 && "Calendar"@[0] == 'C');
    assert("Calendar-journal"@.len() == 16 && "Calendar-journal"@[0] == 'C');
    assert("Contacts"@.len() == 8 && "Contacts"@[0] == 'C');
    assert("Contacts-journal"@.len() == 16 && "Contacts-journal"@[0] == 'C');
    assert("Cookies"@.len() == 7 && "Cookies"@[0] == 'C');
    assert("Cookies-journal"@.len() == 15 && "Cookies-journal"@[0] == 'C');
    assert("Current Session"@.len() == 15 && "Current Session"@[0] == 'C');
    assert("Current Tabs"@.len() == 12 && "Current Tabs"@[0] == 'C');
    assert("DNR Extension Rules"@.len() == 19 && "DNR Extension Rules"@[0] == 'D');
    assert("Extension Rules"@.len() == 15 && "Extension Rules"@[0] == 'E');
    assert("Extension Scripts"@.len() == 17 && "Extension Scripts"@[0] == 'E');
    assert("Extension State"@.len() == 15 && "Extension State"@[0] == 'E');
    assert("Extensions"@.len() == 10 && "Extensions"@[0] == 'E');
    assert("Favicons"@.len() == 8 && "Favicons"@[0] == 'F');
    assert("Favicons-journal"@.len() == 16 && "Favicons-journal"@[0] == 'F');
    assert("File System"@.len() == 11 && "File System"@[0] == 'F');
    assert("History"@.len() == 7 && "History"@[0] == 'H');
    assert("History-journal"@.len() == 15 && "History-journal"@[0] == 'H');
    assert("IndexedDB"@.len() == 9 && "IndexedDB"@[0] == 'I');
    assert("Last Session"@.len() == 12 && "Last Session"@[0] == 'L');
    assert("Last Tabs"@.len() == 9 && "Last Tabs"@[0] == 'L');
    assert("Local Extension Settings"@.len() == 24 && "Local Extension Settings"@[0] == 'L');
    assert("Local Storage"@.len() == 13 && "Local Storage"@[0] == 'L');
    assert("Login Data"@.len() == 10 && "Login Data"@[0] == 'L');
    assert("Login Data For Account"@.len() == 22 && "Login Data For Account"@[0] == 'L');
    assert("Login Data For Account-journal"@.len() == 30 && "Login Data For Account-journal"@[0] == 'L');
    assert("Login Data-journal"@.len() == 18 && "Login Data-journal"@[0] == 'L');
    assert("MailSearchDB"@.len() == 12 && "MailSearchDB"@[0] == 'M');
    assert("MailSearchDB-journal"@.len() == 20 && "MailSearchDB-journal"@[0] == 'M');
    assert("Managed Extension Settings"@.len() == 26 && "Managed Extension Settings"@[0] == 'M');
    assert("Preferences"@.len() == 11 && "Preferences"@[0] == 'P');
    assert("Safe Browsing Cookies"@.len() == 21 && "Safe Browsing Cookies"@[0] == 'S');
    assert("Safe Browsing Cookies-journal"@.len() == 29 && "Safe Browsing Cookies-journal"@[0] == 'S');
    assert("Secure Preferences"@.len() == 18 && "Secure Preferences"@[0] == 'S');
    assert("Service Worker"@.len() == 14 && "Service Worker"@[0] == 'S');
    assert("Session Storage"@.len() == 15 && "Session Storage"@[0] == 'S');
    assert("Sessions"@.len() == 8 && "Sessions"@[0] == 'S');
    assert("Shared Dictionary"@.len() == 17 && "Shared Dictionary"@[0] == 'S');
    assert("Shortcuts"@.len() == 9 && "Shortcuts"@[0] == 'S');
    assert("Shortcuts-journal"@.len() == 17 && "Shortcuts-journal"@[0] == 'S');
    assert("Storage"@.len() == 7 && "Storage"@[0] == 'S');
    assert("Sync Extension Settings"@.len() == 23 && "Sync Extension Settings"@[0] == 'S');
    assert("Top Sites"@.len() == 9 && "Top Sites"@[0] == 'T');
    assert("Top Sites-journal"@.len() == 17 && "Top Sites-journal"@[0] == 'T');
    assert("Visited Links"@.len() == 13 && "Visited Links"@[0] == 'V');
    assert("Web Data"@.len() == 8 && "Web Data"@[0] == 'W');
    assert("Web Data-journal"@.len() == 16 && "Web Data-journal"@[0] == 'W');
    assert("WebStorage"@.len() == 10 && "WebStorage"@[0] == 'W');
}

/// The default (isolated-template) categories are exactly the first three,
/// none of the others is preselected, and the categories that carry
/// personal data are the seven after bookmarks and notes.
proof fn lemma_catalogue_flags(i: int)
    requires
        0 <= i < catalogue().len(),
    ensures
        catalogue()[i].default_on <==> i < 3,
        catalogue()[i].sensitive <==> i >= 5,
{
}

/// A clone with the default categories copies nothing personal: no entry of
/// the default set is an entry of a category that carries personal data.
pub proof fn lemma_defaults_exclude_personal_data(x: Seq<char>)
    requires
        default_entries_of(catalogue()).contains(x),
    ensures
        forall|p: int| 0 <= p < catalogue().len() && catalogue()[p].sensitive ==> !#[trigger] catalogue()[p].entries.contains(x),
{
    lemma_default_entries_members(catalogue().len() as int, x);
    assert(catalogue().take(catalogue().len() as int) =~= catalogue());
    let d = choose|i: int| 0 <= i < catalogue().len() && catalogue()[i].default_on && #[trigger] catalogue()[i].entries.contains(x);
    lemma_catalogue_flags(d);
    lemma_template_category_entries(d, x);
    lemma_template_entries_are_not_personal(x);
    assert forall|p: int| 0 <= p < catalogue().len() && catalogue()[p].sensitive implies !#[trigger] catalogue()[p].entries.contains(x) by {
        lemma_catalogue_flags(p);
        if catalogue()[p].entries.contains(x) {
            lemma_personal_category_entries(p, x);
        }
    }
}

/// `out` extended, in order, by the entries of the known ids among `ids`
/// that it does not hold yet.
pub open spec fn extend_entries(out: Seq<Seq<char>>, ids: Seq<Seq<char>>) -> Seq<Seq<char>>
    decreases ids.len(),
{
    if ids.len() == 0 {
        out
    } else {
        let p = extend_entries(out, ids.drop_last());
        match lookup(ids.last()) {
            Some(c) => add_new(p, c.entries),
            None => p,
        }
    }
}

proof fn lemma_entries_concat(a: Seq<Seq<char>>, b: Seq<Seq<char>>)
    ensures
        entries_of_ids(a + b) == extend_entries(entries_of_ids(a), b),
    decreases b.len(),
{
    if b.len() == 0 {
        assert(a + b =~= a);
    } else {
        lemma_entries_concat(a, b.drop_last());
        assert((a + b).drop_last() =~= a + b.drop_last());
        assert((a + b).last() == b.last());
    }
}

proof fn lemma_add_new_prefix(out: Seq<Seq<char>>, es: Seq<Seq<char>>)
    ensures
        out.len() <= add_new(out, es).len(),
        add_new(out, es).take(out.len() as int) == out,
    decreases es.len(),
{
    if es.len() > 0 {
        lemma_add_new_prefix(out, es.drop_last());
        let o = add_new(out, es.drop_last());
        if !o.contains(es.last()) {
            assert(o.push(es.last()).take(out.len() as int) =~= o.take(out.len() as int));
        }
    } else {
        assert(out.take(out.len() as int) =~= out);
    }
}

proof fn lemma_extend_prefix(out: Seq<Seq<char>>, ids: Seq<Seq<char>>)
    ensures
        out.len() <= extend_entries(out, ids).len(),
        extend_entries(out, ids).take(out.len() as int) == out,
    decreases ids.len(),
{
    if ids.len() > 0 {
        lemma_extend_prefix(out, ids.drop_last());
        let p = extend_entries(out, ids.drop_last());
        match lookup(ids.last()) {
            Some(c) => {
                lemma_add_new_prefix(p, c.entries);
                assert(add_new(p, c.entries).take(out.len() as int) =~= add_new(p, c.entries).take(
                    p.len() as int,
                ).take(out.len() as int));
            },
            None => {},
        }
    } else {
        assert(out.take(out.len() as int) =~= out);
    }
}

proof fn lemma_add_new_held(out: Seq<Seq<char>>, es: Seq<Seq<char>>)
    requires
        forall|x: Seq<char>| #[trigger] es.contains(x) ==> out.contains(x),
    ensures
        add_new(out, es) == out,
    decreases es.len(),
{
    if es.len() > 0 {
        assert forall|x: Seq<char>| #[trigger] es.drop_last().contains(x) implies out.contains(x) by {
            let k = choose|k: int| 0 <= k < es.drop_last().len() && es.drop_last()[k] == x;
            assert(es[k] == x);
            assert(es.contains(x));
        }
        lemma_add_new_held(out, es.drop_last());
        assert(es[es.len() - 1] == es.last());
        assert(es.contains(es.last()));
    }
}

proof fn lemma_extend_held(out: Seq<Seq<char>>, ids: Seq<Seq<char>>)
    requires
        forall|x: Seq<char>| #[trigger] listed_by_some(ids, x) ==> out.contains(x),
    ensures
        extend_entries(out, ids) == out,
    decreases ids.len(),
{
    if ids.len() > 0 {
        let init = ids.drop_last();
        assert forall|x: Seq<char>| #[trigger] listed_by_some(init, x) implies out.contains(x) by {
            let i = choose|i: int| 0 <= i < init.len() && #[trigger] lists(init[i], x);
            assert(ids[i] == init[i]);
            assert(lists(ids[i], x));
            assert(listed_by_some(ids, x));
        }
        lemma_extend_held(out, init);
        match lookup(ids.last()) {
            Some(c) => {
                assert forall|x: Seq<char>| #[trigger] c.entries.contains(x) implies out.contains(x) by {
                    assert(lists(ids[ids.len() - 1], x));
                    assert(listed_by_some(ids, x));
                }
                lemma_add_new_held(out, c.entries);
            },
            None => {},
        }
    }
}

/// Listing the entries of the ids `a` followed by `b` starts with the entries
/// of `a` alone (later ids only add entries after them), and listing `a`
/// twice over gives the same entries as listing it once.
pub proof fn lemma_entries_for_concat(a: Seq<Seq<char>>, b: Seq<Seq<char>>)
    ensures
        entries_of_ids(a).len() <= entries_of_ids(a + b).len(),
        entries_of_ids(a + b).take(entries_of_ids(a).len() as int) == entries_of_ids(a),
        entries_of_ids(a + a) == entries_of_ids(a),
{
    lemma_entries_concat(a, b);
    lemma_extend_prefix(entries_of_ids(a), b);
    lemma_entries_concat(a, a);
    lemma_entries_for_is_dedup_union(a);
    lemma_extend_held(entries_of_ids(a), a);
}

} // verus!
