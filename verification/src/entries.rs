//! The entry catalog: application descriptors are normalized into a
//! deduplicated list of entries with resolved icon paths.
//!
//! Descriptors arrive in file-enumeration order. Per descriptor the
//! pipeline resolves the display name, drops not-for-display and nameless
//! descriptors, computes the deduplication key of the name, and either
//! appends a new entry, replaces an earlier same-key entry in place (only
//! when that entry's icon is unresolved and the newcomer names an icon),
//! or discards the newcomer.

use vstd::prelude::*;

use crate::text::key_of;
use crate::text::normalize_name;

verus! {

/// One application descriptor, reduced to the plain fields the pipeline
/// reads: the display name resolved for the locale preference list (when
/// one resolved), the not-for-display flag, and the raw text fields.
pub struct RawDescriptor {
    pub name: Option<String>,
    pub no_display: bool,
    pub icon_name: String,
    pub exec_template: String,
    pub comment: String,
    pub appid: String,
}

/// Mathematical image of a `RawDescriptor`.
pub struct DescriptorView {
    pub name: Option<Seq<char>>,
    pub no_display: bool,
    pub icon_name: Seq<char>,
    pub exec_template: Seq<char>,
    pub comment: Seq<char>,
    pub appid: Seq<char>,
}

impl View for RawDescriptor {
    type V = DescriptorView;

    open spec fn view(&self) -> DescriptorView {
        DescriptorView {
            name: match self.name {
                Some(s) => Some(s@),
                None => None,
            },
            no_display: self.no_display,
            icon_name: self.icon_name@,
            exec_template: self.exec_template@,
            comment: self.comment@,
            appid: self.appid@,
        }
    }
}

impl Clone for RawDescriptor {
    fn clone(&self) -> (r: Self)
        ensures
            r == *self,
    {
        RawDescriptor {
            name: self.name.clone(),
            no_display: self.no_display,
            icon_name: self.icon_name.clone(),
            exec_template: self.exec_template.clone(),
            comment: self.comment.clone(),
            appid: self.appid.clone(),
        }
    }
}

/// A descriptor together with the icon path the theme lookup resolved
/// for it (possibly empty: unresolved).
pub struct ResolvedDescriptor {
    pub desc: RawDescriptor,
    pub icon_path: String,
}

/// Mathematical image of a `ResolvedDescriptor`.
pub struct ResolvedView {
    pub desc: DescriptorView,
    pub icon_path: Seq<char>,
}

impl View for ResolvedDescriptor {
    type V = ResolvedView;

    open spec fn view(&self) -> ResolvedView {
        ResolvedView { desc: self.desc@, icon_path: self.icon_path@ }
    }
}

/// One normalized catalog entry.
#[derive(Debug, PartialEq)]
pub struct NormalDesktopEntry {
    pub app_name: String,
    pub comment: String,
    pub appid: String,
    pub exec_template: String,
    pub icon: String,
}

/// Mathematical image of a `NormalDesktopEntry`.
pub struct EntryView {
    pub app_name: Seq<char>,
    pub comment: Seq<char>,
    pub appid: Seq<char>,
    pub exec_template: Seq<char>,
    pub icon: Seq<char>,
}

impl View for NormalDesktopEntry {
    type V = EntryView;

    open spec fn view(&self) -> EntryView {
        EntryView {
            app_name: self.app_name@,
            comment: self.comment@,
            appid: self.appid@,
            exec_template: self.exec_template@,
            icon: self.icon@,
        }
    }
}

impl Clone for NormalDesktopEntry {
    fn clone(&self) -> (r: Self)
        ensures
            r == *self,
    {
        NormalDesktopEntry {
            app_name: self.app_name.clone(),
            comment: self.comment.clone(),
            appid: self.appid.clone(),
            exec_template: self.exec_template.clone(),
            icon: self.icon.clone(),
        }
    }
}

/// The views of a sequence of entries.
pub open spec fn entry_views(s: Seq<NormalDesktopEntry>) -> Seq<EntryView> {
    s.map_values(|e: NormalDesktopEntry| e@)
}

/// The views of a sequence of resolved descriptors.
pub open spec fn resolved_views(s: Seq<ResolvedDescriptor>) -> Seq<ResolvedView> {
    s.map_values(|d: ResolvedDescriptor| d@)
}

/// The views of a sequence of raw descriptors.
pub open spec fn descriptor_views(s: Seq<RawDescriptor>) -> Seq<DescriptorView> {
    s.map_values(|d: RawDescriptor| d@)
}

/// The resolved display name, or empty when none resolved.
pub open spec fn name_of(d: DescriptorView) -> Seq<char> {
    match d.name {
        Some(n) => n,
        None => Seq::empty(),
    }
}

/// A descriptor enters the catalog only when a non-empty display name
/// resolved and it is not flagged not-for-display.
pub open spec fn displayable(d: DescriptorView) -> bool {
    d.name is Some && name_of(d).len() > 0 && !d.no_display
}

/// The entry a kept descriptor contributes.
pub open spec fn entry_of(r: ResolvedView) -> EntryView {
    EntryView {
        app_name: name_of(r.desc),
        comment: r.desc.comment,
        appid: r.desc.appid,
        exec_template: r.desc.exec_template,
        icon: r.icon_path,
    }
}

/// The first entry whose display name has the given deduplication key.
pub open spec fn find_key(entries: Seq<EntryView>, key: Seq<char>) -> Option<int>
    decreases entries.len(),
{
    if entries.len() == 0 {
        None
    } else if key_of(entries[0].app_name) == key {
        Some(0int)
    } else {
        match find_key(entries.drop_first(), key) {
            Some(i) => Some(i + 1),
            None => None,
        }
    }
}

/// What one descriptor does to the catalog built so far: skipped,
/// appended, replacing an earlier same-key entry, or discarded.
pub open spec fn catalog_step(acc: Seq<EntryView>, item: ResolvedView) -> Seq<EntryView> {
    if !displayable(item.desc) {
        acc
    } else {
        let key = key_of(name_of(item.desc));
        match find_key(acc, key) {
            Some(i) => if acc[i].icon.len() == 0 && item.desc.icon_name.len() > 0 {
                acc.update(i, entry_of(item))
            } else {
                acc
            },
            None => acc.push(entry_of(item)),
        }
    }
}

/// The whole pipeline, over descriptors in enumeration order.
pub open spec fn catalog_spec(items: Seq<ResolvedView>) -> Seq<EntryView>
    decreases items.len(),
{
    if items.len() == 0 {
        Seq::empty()
    } else {
        catalog_step(catalog_spec(items.drop_last()), items.last())
    }
}

/// `find_key` returns the first index whose name has the key, and `None`
/// exactly when no entry's name has it.
pub proof fn lemma_find_key_props(entries: Seq<EntryView>, key: Seq<char>)
    ensures
        match find_key(entries, key) {
            Some(i) => 0 <= i < entries.len() && key_of(entries[i].app_name) == key && (forall|
                l: int,
            |
                0 <= l < i ==> key_of(#[trigger] entries[l].app_name) != key),
            None => forall|l: int|
                0 <= l < entries.len() ==> key_of(#[trigger] entries[l].app_name) != key,
        },
    decreases entries.len(),
{
    if entries.len() > 0 {
        lemma_find_key_props(entries.drop_first(), key);
        assert(forall|l: int|
            0 < l < entries.len() ==> #[trigger] entries[l] == entries.drop_first()[l - 1]);
    }
}

/// Deduplication keys are pairwise distinct.
pub open spec fn unique_keys(es: Seq<EntryView>) -> bool {
    forall|i: int, j: int|
        0 <= i < j < es.len() ==> key_of(#[trigger] es[i].app_name) != key_of(
            #[trigger] es[j].app_name,
        )
}

/// Every entry has a non-empty display name.
pub open spec fn all_named(es: Seq<EntryView>) -> bool {
    forall|j: int| 0 <= j < es.len() ==> (#[trigger] es[j]).app_name.len() > 0
}

/// The catalog invariant: display names are non-empty and at most one
/// entry exists per deduplication key.
pub proof fn lemma_catalog_wf(items: Seq<ResolvedView>)
    ensures
        unique_keys(catalog_spec(items)),
        all_named(catalog_spec(items)),
    decreases items.len(),
{
    if items.len() > 0 {
        lemma_catalog_wf(items.drop_last());
        let acc = catalog_spec(items.drop_last());
        let item = items.last();
        if displayable(item.desc) {
            let key = key_of(name_of(item.desc));
            lemma_find_key_props(acc, key);
            match find_key(acc, key) {
                Some(f) => {
                    if acc[f].icon.len() == 0 && item.desc.icon_name.len() > 0 {
                        let c = acc.update(f, entry_of(item));
                        assert(key_of(c[f].app_name) == key_of(acc[f].app_name));
                        assert(unique_keys(c));
                        assert(all_named(c));
                    }
                },
                None => {
                    let c = acc.push(entry_of(item));
                    assert(forall|l: int| 0 <= l < acc.len() ==> #[trigger] c[l] == acc[l]);
                    assert(key_of(c[acc.len() as int].app_name) == key);
                    assert(unique_keys(c));
                    assert(all_named(c));
                },
            }
        }
    }
}

/// One step keeps an earlier entry in place or writes the newcomer's.
proof fn lemma_step_provenance(acc: Seq<EntryView>, item: ResolvedView, j: int)
    requires
        0 <= j < catalog_step(acc, item).len(),
    ensures
        (displayable(item.desc) && catalog_step(acc, item)[j] == entry_of(item)) || (0 <= j
            < acc.len() && catalog_step(acc, item)[j] == acc[j]),
{
    if displayable(item.desc) {
        lemma_find_key_props(acc, key_of(name_of(item.desc)));
    }
}

/// Provenance: every catalog entry is contributed by some displayable
/// descriptor of the input. In particular a descriptor flagged
/// not-for-display, or one without a resolvable display name, never
/// appears in the normalized list.
pub proof fn lemma_no_display_filtered(items: Seq<ResolvedView>)
    ensures
        forall|j: int|
            0 <= j < catalog_spec(items).len() ==> exists|i: int|
                0 <= i < items.len() && displayable(#[trigger] items[i].desc) && #[trigger] catalog_spec(
                    items,
                )[j] == entry_of(items[i]),
    decreases items.len(),
{
    if items.len() > 0 {
        lemma_no_display_filtered(items.drop_last());
        let prev = items.drop_last();
        let acc = catalog_spec(prev);
        let c = catalog_spec(items);
        let item = items.last();
        assert forall|j: int| 0 <= j < c.len() implies exists|i: int|
            0 <= i < items.len() && displayable(#[trigger] items[i].desc) && (#[trigger] c[j])
            == entry_of(items[i]) by {
            lemma_step_provenance(acc, item, j);
            if displayable(item.desc) && c[j] == entry_of(item) {
                assert(items[items.len() - 1] == item);
                assert(displayable(items[items.len() - 1].desc) && c[j] == entry_of(
                    items[items.len() - 1],
                ));
            } else {
                let i0 = choose|i: int|
                    0 <= i < prev.len() && displayable(#[trigger] prev[i].desc) && acc[j]
                        == entry_of(prev[i]);
                assert(items[i0] == prev[i0]);
                assert(displayable(items[i0].desc) && c[j] == entry_of(items[i0]));
            }
        }
    }
}

/// Icon completion: once the catalog holds no entry with the newcomers'
/// key, a first descriptor whose icon did not resolve followed by a
/// same-key descriptor that names an icon leaves exactly the second
/// descriptor's entry, at the position the first one took.
pub proof fn lemma_icon_completion(items: Seq<ResolvedView>, d1: ResolvedView, d2: ResolvedView)
    requires
        displayable(d1.desc),
        displayable(d2.desc),
        key_of(name_of(d1.desc)) == key_of(name_of(d2.desc)),
        find_key(catalog_spec(items), key_of(name_of(d1.desc))) is None,
        d1.icon_path.len() == 0,
        d2.desc.icon_name.len() > 0,
    ensures
        catalog_spec(items.push(d1).push(d2)) == catalog_spec(items).push(entry_of(d2)),
{
    let c0 = catalog_spec(items);
    let key = key_of(name_of(d1.desc));
    let s1 = items.push(d1);
    let s2 = s1.push(d2);
    assert(s1.drop_last() =~= items);
    assert(s2.drop_last() =~= s1);
    let c1 = catalog_spec(s1);
    assert(c1 == c0.push(entry_of(d1)));
    lemma_find_key_props(c0, key);
    lemma_find_key_props(c1, key);
    assert(c1[c0.len() as int] == entry_of(d1));
    assert(key_of(c1[c0.len() as int].app_name) == key);
    match find_key(c1, key) {
        Some(f) => {
            if f < c0.len() {
                assert(c1[f] == c0[f]);
                assert(false);
            }
            assert(f == c0.len());
            assert(c1[f].icon.len() == 0);
            assert(catalog_spec(s2) == c1.update(f, entry_of(d2)));
            assert(c1.update(f, entry_of(d2)) =~= c0.push(entry_of(d2)));
        },
        None => {
            assert(false);
        },
    }
}

/// Each catalog entry read back as a descriptor: named, displayable,
/// its icon kept as resolved.
pub open spec fn as_descriptor(e: EntryView) -> ResolvedView {
    ResolvedView {
        desc: DescriptorView {
            name: Some(e.app_name),
            no_display: false,
            icon_name: e.icon,
            exec_template: e.exec_template,
            comment: e.comment,
            appid: e.appid,
        },
        icon_path: e.icon,
    }
}

/// A catalog's entries read back as descriptors.
pub open spec fn as_descriptors(es: Seq<EntryView>) -> Seq<ResolvedView> {
    es.map_values(|e: EntryView| as_descriptor(e))
}

/// The entries of each descriptor, in order.
pub open spec fn entries_of(ds: Seq<ResolvedView>) -> Seq<EntryView> {
    ds.map_values(|d: ResolvedView| entry_of(d))
}

/// A catalog of displayable descriptors with pairwise-distinct keys
/// keeps every descriptor, in order.
proof fn lemma_catalog_of_unique(ds: Seq<ResolvedView>)
    requires
        forall|i: int| 0 <= i < ds.len() ==> displayable((#[trigger] ds[i]).desc),
        forall|i: int, j: int|
            0 <= i < j < ds.len() ==> key_of(name_of((#[trigger] ds[i]).desc)) != key_of(
                name_of((#[trigger] ds[j]).desc),
            ),
    ensures
        catalog_spec(ds) == entries_of(ds),
    decreases ds.len(),
{
    if ds.len() == 0 {
        assert(catalog_spec(ds) =~= entries_of(ds));
    } else {
        lemma_catalog_of_unique(ds.drop_last());
        let acc = catalog_spec(ds.drop_last());
        let key = key_of(name_of(ds.last().desc));
        lemma_find_key_props(acc, key);
        match find_key(acc, key) {
            Some(f) => {
                assert(acc[f] == entry_of(ds.drop_last()[f]));
                assert(ds.drop_last()[f] == ds[f]);
                assert(key_of(name_of(ds[f].desc)) == key_of(name_of(ds.last().desc)));
                assert(false);
            },
            None => {
                assert(catalog_spec(ds) =~= entries_of(ds));
            },
        }
    }
}

/// Idempotence: running the pipeline over its own output changes
/// nothing. The catalog is already deduplicated and normalized, so a
/// second run on the same result keeps the list, order and content.
pub proof fn lemma_catalog_idempotent(items: Seq<ResolvedView>)
    ensures
        catalog_spec(as_descriptors(catalog_spec(items))) == catalog_spec(items),
{
    lemma_catalog_wf(items);
    let c = catalog_spec(items);
    let ds = as_descriptors(c);
    assert(forall|i: int| 0 <= i < ds.len() ==> displayable((#[trigger] ds[i]).desc));
    assert(forall|i: int, j: int|
        0 <= i < j < ds.len() ==> key_of(name_of((#[trigger] ds[i]).desc)) != key_of(
            name_of((#[trigger] ds[j]).desc),
        ));
    lemma_catalog_of_unique(ds);
    assert(entries_of(ds) =~= c);
}

/// Relies on `freedesktop_icons::lookup`: searches the icon theme
/// directories on disk for the named icon under the given theme; the
/// outcome depends on what is installed.
#[verifier::external_body]
fn lookup_icon(name: &str, theme: &str) -> (r: Option<String>) {
    freedesktop_icons::lookup(name)
        .with_cache()
        .with_theme(theme)
        .find()
        .map(|p| p.to_string_lossy().to_string())
}

/// Resolves an icon name under a theme, falling back to the generic
/// executable icon; an unresolved result is the empty path.
fn resolve_icon(name: &str, theme: &str) -> String {
    let primary = lookup_icon(name, theme);
    let path = match primary {
        Some(p) => p,
        None => String::new(),
    };
    if path.as_str().is_empty() {
        match lookup_icon("application-x-executable", theme) {
            Some(p) => p,
            None => String::new(),
        }
    } else {
        path
    }
}

/// Builds the entry a kept descriptor contributes.
fn make_entry(d: &ResolvedDescriptor, name: &String) -> (e: NormalDesktopEntry)
    requires
        d@.desc.name == Some(name@),
    ensures
        e@ == entry_of(d@),
{
    NormalDesktopEntry {
        app_name: name.clone(),
        comment: d.desc.comment.clone(),
        appid: d.desc.appid.clone(),
        exec_template: d.desc.exec_template.clone(),
        icon: d.icon_path.clone(),
    }
}

/// Runs the filter/dedup pipeline over descriptors whose icons are
/// already resolved; the result is exactly the specified catalog.
pub fn build_catalog(items: &Vec<ResolvedDescriptor>) -> (r: Vec<NormalDesktopEntry>)
    ensures
        entry_views(r@) == catalog_spec(resolved_views(items@)),
{
    let ghost ds = resolved_views(items@);
    let mut entries: Vec<NormalDesktopEntry> = Vec::new();
    let mut keys: Vec<String> = Vec::new();
    let n = items.len();
    let mut i: usize = 0;
    proof {
        assert(ds.take(0) =~= Seq::<ResolvedView>::empty());
        assert(entry_views(entries@) =~= catalog_spec(ds.take(0)));
    }
    while i < n
        invariant
            n == items@.len(),
            i <= n,
            ds == resolved_views(items@),
            entry_views(entries@) == catalog_spec(ds.take(i as int)),
            keys@.len() == entries@.len(),
            forall|j: int|
                0 <= j < keys@.len() ==> (#[trigger] keys@[j])@ == key_of(entries@[j]@.app_name),
        decreases n - i,
    {
        let item = &items[i];
        let ghost acc = catalog_spec(ds.take(i as int));
        proof {
            assert(ds[i as int] == item@);
            assert(ds.take(i as int + 1).drop_last() =~= ds.take(i as int));
            assert(ds.take(i as int + 1).last() == ds[i as int]);
        }
        match &item.desc.name {
            None => {
                proof {
                    assert(!displayable(item@.desc));
                    assert(entry_views(entries@) =~= catalog_spec(ds.take(i as int + 1)));
                }
            },
            Some(name) => {
                if item.desc.no_display || name.as_str().is_empty() {
                    proof {
                        assert(!displayable(item@.desc));
                        assert(entry_views(entries@) =~= catalog_spec(ds.take(i as int + 1)));
                    }
                } else {
                    proof {
                        assert(item@.desc.name == Some(name@));
                        assert(displayable(item@.desc));
                    }
                    let key = normalize_name(name.as_str());
                    let klen = keys.len();
                    let mut j: usize = 0;
                    let mut found: Option<usize> = None;
                    while j < klen
                        invariant_except_break
                            found is None,
                        invariant
                            klen == keys@.len(),
                            j <= klen,
                            forall|l: int| 0 <= l < j ==> (#[trigger] keys@[l])@ != key@,
                        ensures
                            match found {
                                Some(f) => f < klen && keys@[f as int]@ == key@ && (forall|
                                    l: int,
                                |
                                    0 <= l < f ==> (#[trigger] keys@[l])@ != key@),
                                None => forall|l: int|
                                    0 <= l < klen ==> (#[trigger] keys@[l])@ != key@,
                            },
                        decreases klen - j,
                    {
                        if keys[j] == key {
                            found = Some(j);
                            break ;
                        }
                        j = j + 1;
                    }
                    proof {
                        assert(forall|l: int|
                            0 <= l < acc.len() ==> key_of(#[trigger] acc[l].app_name) == keys@[l]@);
                        lemma_find_key_props(acc, key@);
                    }
                    match found {
                        Some(f) => {
                            proof {
                                assert(key_of(acc[f as int].app_name) == key@);
                                assert(find_key(acc, key@) == Some(f as int));
                            }
                            let replace = entries[f].icon.as_str().is_empty()
                                && !item.desc.icon_name.as_str().is_empty();
                            if replace {
                                let e = make_entry(item, name);
                                entries.set(f, e);
                                keys.set(f, key);
                                proof {
                                    assert(entry_views(entries@) =~= acc.update(
                                        f as int,
                                        entry_of(ds[i as int]),
                                    ));
                                    assert(entry_views(entries@) =~= catalog_spec(
                                        ds.take(i as int + 1),
                                    ));
                                }
                            } else {
                                proof {
                                    assert(entry_views(entries@) =~= catalog_spec(
                                        ds.take(i as int + 1),
                                    ));
                                }
                            }
                        },
                        None => {
                            let e = make_entry(item, name);
                            entries.push(e);
                            keys.push(key);
                            proof {
                                assert(find_key(acc, key@) is None);
                                assert(entry_views(entries@) =~= acc.push(entry_of(ds[i as int])));
                                assert(entry_views(entries@) =~= catalog_spec(
                                    ds.take(i as int + 1),
                                ));
                            }
                        },
                    }
                }
            },
        }
        i = i + 1;
    }
    proof {
        assert(ds.take(n as int) =~= ds);
    }
    entries
}

/// A change observed under a descriptor search path, reduced to what the
/// rescan decision reads.
#[derive(Clone, Copy, PartialEq, Eq, Structural, Debug)]
pub enum FsChange {
    DataModified,
    Created,
    Removed,
    Other,
}

/// Whether a filesystem change warrants a catalog rescan: file creation,
/// content modification and removal do; anything else does not.
pub fn should_refresh(change: FsChange) -> (r: bool)
    ensures
        r == !(change is Other),
{
    match change {
        FsChange::DataModified => true,
        FsChange::Created => true,
        FsChange::Removed => true,
        FsChange::Other => false,
    }
}

/// Pairs each descriptor with an icon path.
pub open spec fn attach_icons(ds: Seq<DescriptorView>, icons: Seq<Seq<char>>) -> Seq<ResolvedView> {
    Seq::new(ds.len(), |i: int| ResolvedView { desc: ds[i], icon_path: icons[i] })
}

/// The catalog manager: holds the most recent scan's descriptors and
/// produces the normalized entry list from them.
pub struct DesktopEntryManager {
    pub descriptors: Vec<RawDescriptor>,
}

impl DesktopEntryManager {
    /// Takes ownership of one scan's descriptors.
    pub fn new(descriptors: Vec<RawDescriptor>) -> (m: Self)
        ensures
            m.descriptors == descriptors,
    {
        DesktopEntryManager { descriptors }
    }

    /// Replaces the held descriptors with a fresh scan's, wholesale: a
    /// reader of the manager sees the old set or the new one, never a mix.
    pub fn refresh(&mut self, descriptors: Vec<RawDescriptor>)
        ensures
            final(self).descriptors == descriptors,
    {
        self.descriptors = descriptors;
    }

    /// Resolves each descriptor's icon under the theme and runs the
    /// pipeline: the result is the specified catalog of the held
    /// descriptors, under whatever icon paths the theme lookup returned.
    pub fn get_normalized_entries(&self, icon_theme: &str) -> (r: Vec<NormalDesktopEntry>)
        ensures
            exists|icons: Seq<Seq<char>>|
                icons.len() == self.descriptors@.len() && entry_views(r@) == catalog_spec(
                    #[trigger] attach_icons(descriptor_views(self.descriptors@), icons),
                ),
    {
        let mut resolved: Vec<ResolvedDescriptor> = Vec::new();
        let n = self.descriptors.len();
        let mut i: usize = 0;
        while i < n
            invariant
                n == self.descriptors@.len(),
                i <= n,
                resolved@.len() == i,
                forall|j: int|
                    0 <= j < i ==> (#[trigger] resolved@[j]).desc == self.descriptors@[j],
            decreases n - i,
        {
            let d = &self.descriptors[i];
            let path = resolve_icon(d.icon_name.as_str(), icon_theme);
            resolved.push(ResolvedDescriptor { desc: d.clone(), icon_path: path });
            i = i + 1;
        }
        let r = build_catalog(&resolved);
        proof {
            let icons = resolved@.map_values(|rd: ResolvedDescriptor| rd.icon_path@);
            assert(attach_icons(descriptor_views(self.descriptors@), icons) =~= resolved_views(
                resolved@,
            ));
            assert(icons.len() == self.descriptors@.len());
            assert(entry_views(r@) == catalog_spec(
                attach_icons(descriptor_views(self.descriptors@), icons),
            ));
        }
        r
    }
}

} // verus!
