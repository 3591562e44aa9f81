use vstd::prelude::*;
use crate::config::Cli;
use crate::entry::{Probe, lemma_dirs_view_push, lemma_entries_view_push, dirs_view, entries_view, Child, DirListing, Directory, Entry, Meta};

verus! {

/// A hidden name starts with a dot.
pub open spec fn is_hidden(name: Seq<char>) -> bool {
    name.len() > 0 && name[0] == '.'
}

/// Whether a child of this name is listed.
pub open spec fn is_shown(name: Seq<char>, config: Cli) -> bool {
    !is_hidden(name) || config.all || config.almost_all
}

/// Whether a listed child is deferred to a block of its own.
pub open spec fn is_deferred(c: Child, config: Cli) -> bool {
    c.meta.is_dir && config.recursive
}

/// The entries that the first `k` children give.
pub open spec fn child_entries(ch: Seq<Child>, config: Cli) -> Seq<(Seq<char>, Meta)>
    decreases ch.len(),
{
    if ch.len() == 0 {
        Seq::empty()
    } else {
        let rest = child_entries(ch.drop_last(), config);
        let c = ch.last();
        if is_shown(c.name@, config) && !is_deferred(c, config) {
            rest.push((c.name@, c.meta))
        } else {
            rest
        }
    }
}

/// The pending directories that the children give.
pub open spec fn child_dirs(ch: Seq<Child>, config: Cli) -> Seq<(Seq<char>, Seq<char>, Meta)>
    decreases ch.len(),
{
    if ch.len() == 0 {
        Seq::empty()
    } else {
        let rest = child_dirs(ch.drop_last(), config);
        let c = ch.last();
        if is_shown(c.name@, config) && is_deferred(c, config) {
            rest.push((c.path@, c.name@, c.meta))
        } else {
            rest
        }
    }
}

/// The `.` and `..` pseudo-entries, present only when all names are shown.
pub open spec fn pseudo_entries(listing: DirListing, config: Cli) -> Seq<(Seq<char>, Meta)> {
    if config.all {
        seq![(seq!['.'], listing.self_meta->0), (seq!['.', '.'], listing.parent_meta->0)]
    } else {
        Seq::empty()
    }
}

/// Whether a name is one of the pseudo-entries `.` and `..`.
pub open spec fn is_pseudo_name(name: Seq<char>) -> bool {
    name == seq!['.'] || name == seq!['.', '.']
}

/// A listing as a directory gives it: distinct child names, none of them `.`
/// or `..`, and the metadata of the pseudo-entries where they are shown.
pub open spec fn listing_wf(listing: DirListing, config: Cli) -> bool {
    &&& config.all ==> listing.self_meta is Some && listing.parent_meta is Some
    &&& forall|i: int, j: int|
        0 <= i < j < listing.children@.len() ==> #[trigger] listing.children@[i].name@
            != #[trigger] listing.children@[j].name@
    &&& forall|i: int|
        0 <= i < listing.children@.len() ==> !is_pseudo_name(#[trigger] listing.children@[i].name@)
}

fn is_pseudo_str(name: &str) -> (r: bool)
    ensures
        r == is_pseudo_name(name@),
{
    let n = name.unicode_len();
    if n == 1 {
        let r = name.get_char(0) == '.';
        assert(r ==> name@ =~= seq!['.']);
        r
    } else if n == 2 {
        let r = name.get_char(0) == '.' && name.get_char(1) == '.';
        assert(r ==> name@ =~= seq!['.', '.']);
        r
    } else {
        false
    }
}

/// Whether the listing is one that a directory could give: see `listing_wf`.
pub fn listing_is_valid(listing: &DirListing, config: &Cli) -> (r: bool)
    ensures
        r == listing_wf(*listing, *config),
{
    if config.all && (listing.self_meta.is_none() || listing.parent_meta.is_none()) {
        return false;
    }
    let n = listing.children.len();
    let mut j: usize = 0;
    while j < n
        invariant
            n == listing.children@.len(),
            j <= n,
            config.all ==> listing.self_meta is Some && listing.parent_meta is Some,
            forall|a: int, b: int|
                0 <= a < b < j ==> #[trigger] listing.children@[a].name@
                    != #[trigger] listing.children@[b].name@,
            forall|a: int| 0 <= a < j ==> !is_pseudo_name(#[trigger] listing.children@[a].name@),
        decreases n - j,
    {
        if is_pseudo_str(listing.children[j].name.as_str()) {
            return false;
        }
        let mut i: usize = 0;
        while i < j
            invariant
                n == listing.children@.len(),
                i <= j < n,
                forall|a: int| 0 <= a < i ==> #[trigger] listing.children@[a].name@
                    != listing.children@[j as int].name@,
            decreases j - i,
        {
            if listing.children[i].name == listing.children[j].name {
                return false;
            }
            i = i + 1;
        }
        j = j + 1;
    }
    true
}

/// Whether a child of this name is listed.
pub fn is_listed(name: &str, config: &Cli) -> (r: bool)
    ensures
        r == is_shown(name@, *config),
{
    let hidden = name.unicode_len() > 0 && name.get_char(0) == '.';
    !hidden || config.all || config.almost_all
}

fn make_entry(name: &str, meta: Meta) -> (r: Entry)
    ensures
        r.name@ == name@,
        r.meta == meta,
{
    Entry { name: String::from_str(name), meta }
}

/// Expands one directory: appends its listed children to `entries`, or to
/// `dirs` when recursion defers them, after the `.` and `..` pseudo-entries
/// when all names are shown.
pub fn process_directory(
    listing: &DirListing,
    entries: &mut Vec<Entry>,
    dirs: &mut Vec<Directory>,
    config: &Cli,
)
    requires
        listing_wf(*listing, *config),
    ensures
        entries_view(final(entries)@) == entries_view(old(entries)@) + pseudo_entries(*listing, *config)
            + child_entries(listing.children@, *config),
        dirs_view(final(dirs)@) == dirs_view(old(dirs)@) + child_dirs(listing.children@, *config),
{
    let ghost e0 = entries_view(entries@);
    let ghost d0 = dirs_view(dirs@);
    if config.all {
        let dot = make_entry(".", listing.self_meta.unwrap());
        let dot_dot = make_entry("..", listing.parent_meta.unwrap());
        proof {
            reveal_strlit(".");
            reveal_strlit("..");
            assert(dot.name@ =~= seq!['.']);
            assert(dot_dot.name@ =~= seq!['.', '.']);
        }
        let ghost v0 = entries@;
        entries.push(dot);
        let ghost v1 = entries@;
        entries.push(dot_dot);
        proof {
            lemma_entries_view_push(v0, dot);
            lemma_entries_view_push(v1, dot_dot);
        }
    }
    let ghost e1 = entries_view(entries@);
    assert(e1 =~= e0 + pseudo_entries(*listing, *config));
    let n = listing.children.len();
    let mut i: usize = 0;
    while i < n
        invariant
            n == listing.children@.len(),
            i <= n,
            entries_view(entries@) == e1 + child_entries(listing.children@.subrange(0, i as int), *config),
            dirs_view(dirs@) == d0 + child_dirs(listing.children@.subrange(0, i as int), *config),
        decreases n - i,
    {
        let c = &listing.children[i];
        let ghost pre = listing.children@.subrange(0, i as int);
        let ghost next = listing.children@.subrange(0, i as int + 1);
        assert(next.drop_last() =~= pre);
        assert(next.last() == *c);
        let hidden = c.name.as_str().unicode_len() > 0 && c.name.as_str().get_char(0) == '.';
        if !hidden || config.all || config.almost_all {
            if c.meta.is_dir && config.recursive {
                let d = Directory {
                    path: c.path.clone(),
                    name: c.name.clone(),
                    meta: c.meta,
                };
                let ghost dv = dirs@;
                dirs.push(d);
                proof {
                    lemma_dirs_view_push(dv, d);
                }
                assert(dirs_view(dirs@) =~= d0 + child_dirs(next, *config));
                assert(entries_view(entries@) =~= e1 + child_entries(next, *config));
            } else {
                let e = Entry { name: c.name.clone(), meta: c.meta };
                let ghost ev = entries@;
                entries.push(e);
                proof {
                    lemma_entries_view_push(ev, e);
                }
                assert(dirs_view(dirs@) =~= d0 + child_dirs(next, *config));
                assert(entries_view(entries@) =~= e1 + child_entries(next, *config));
            }
        } else {
            assert(dirs_view(dirs@) =~= d0 + child_dirs(next, *config));
            assert(entries_view(entries@) =~= e1 + child_entries(next, *config));
        }
        i = i + 1;
    }
    assert(listing.children@.subrange(0, n as int) =~= listing.children@);
}

/// The expansion of a valid listing keeps exactly its shown children, each
/// once: no name it lists is hidden unless all or almost all names are shown,
/// every shown child is listed, as an entry or as a pending directory, and no
/// name is listed twice. The `.` and `..` pseudo-entries come first, in that
/// order, and only when all names are shown; no child stands for them.
pub proof fn lemma_hidden_filtering(listing: DirListing, config: Cli)
    requires
        listing_wf(listing, config),
    ensures
        forall|k: int|
            0 <= k < child_entries(listing.children@, config).len() ==> is_shown(
                #[trigger] child_entries(listing.children@, config)[k].0,
                config,
            ),
        forall|k: int|
            0 <= k < child_dirs(listing.children@, config).len() ==> is_shown(
                #[trigger] child_dirs(listing.children@, config)[k].1,
                config,
            ),
        forall|i: int|
            0 <= i < listing.children@.len() && is_shown(#[trigger] listing.children@[i].name@, config)
                ==> {
                let c = listing.children@[i];
                child_entries(listing.children@, config).contains((c.name@, c.meta))
                    || child_dirs(listing.children@, config).contains((c.path@, c.name@, c.meta))
            },
        names_once(child_entries(listing.children@, config), child_dirs(listing.children@, config)),
        forall|k: int|
            0 <= k < child_entries(listing.children@, config).len() ==> !is_pseudo_name(
                #[trigger] child_entries(listing.children@, config)[k].0,
            ),
        forall|k: int|
            0 <= k < child_dirs(listing.children@, config).len() ==> !is_pseudo_name(
                #[trigger] child_dirs(listing.children@, config)[k].1,
            ),
        config.all ==> pseudo_entries(listing, config) == seq![
            (seq!['.'], listing.self_meta->0),
            (seq!['.', '.'], listing.parent_meta->0),
        ],
        !config.all ==> pseudo_entries(listing, config).len() == 0,
{
    let ch = listing.children@;
    lemma_children_kept(ch, config);
    lemma_children_names(ch, config);
    assert forall|k: int| 0 <= k < child_entries(ch, config).len() implies !is_pseudo_name(
        #[trigger] child_entries(ch, config)[k].0,
    ) by {
        let i = choose|i: int| 0 <= i < ch.len() && ch[i].name@ == child_entries(ch, config)[k].0;
    }
    assert forall|k: int| 0 <= k < child_dirs(ch, config).len() implies !is_pseudo_name(
        #[trigger] child_dirs(ch, config)[k].1,
    ) by {
        let i = choose|i: int| 0 <= i < ch.len() && ch[i].name@ == child_dirs(ch, config)[k].1;
    }
}

/// No name stands twice among the entries and pending directories.
pub open spec fn names_once(es: Seq<(Seq<char>, Meta)>, ds: Seq<(Seq<char>, Seq<char>, Meta)>) -> bool {
    &&& forall|a: int, b: int| 0 <= a < b < es.len() ==> #[trigger] es[a].0 != #[trigger] es[b].0
    &&& forall|a: int, b: int| 0 <= a < b < ds.len() ==> #[trigger] ds[a].1 != #[trigger] ds[b].1
    &&& forall|a: int, b: int|
        0 <= a < es.len() && 0 <= b < ds.len() ==> #[trigger] es[a].0 != #[trigger] ds[b].1
}

proof fn lemma_children_names(ch: Seq<Child>, config: Cli)
    requires
        forall|i: int, j: int| 0 <= i < j < ch.len() ==> #[trigger] ch[i].name@ != #[trigger] ch[j].name@,
    ensures
        forall|k: int|
            0 <= k < child_entries(ch, config).len() ==> exists|i: int|
                0 <= i < ch.len() && ch[i].name@ == #[trigger] child_entries(ch, config)[k].0,
        forall|k: int|
            0 <= k < child_dirs(ch, config).len() ==> exists|i: int|
                0 <= i < ch.len() && ch[i].name@ == #[trigger] child_dirs(ch, config)[k].1,
        names_once(child_entries(ch, config), child_dirs(ch, config)),
    decreases ch.len(),
{
    if ch.len() > 0 {
        let pre = ch.drop_last();
        assert forall|i: int, j: int| 0 <= i < j < pre.len() implies #[trigger] pre[i].name@
            != #[trigger] pre[j].name@ by {
            assert(pre[i] == ch[i] && pre[j] == ch[j]);
        }
        lemma_children_names(pre, config);
        let es0 = child_entries(pre, config);
        let ds0 = child_dirs(pre, config);
        let es = child_entries(ch, config);
        let ds = child_dirs(ch, config);
        let last = ch.last();
        assert forall|k: int| 0 <= k < es0.len() implies #[trigger] es0[k].0 != last.name@ by {
            let i = choose|i: int| 0 <= i < pre.len() && pre[i].name@ == es0[k].0;
            assert(ch[i] == pre[i]);
            assert(ch[i].name@ != ch[ch.len() - 1].name@);
        }
        assert forall|k: int| 0 <= k < ds0.len() implies #[trigger] ds0[k].1 != last.name@ by {
            let i = choose|i: int| 0 <= i < pre.len() && pre[i].name@ == ds0[k].1;
            assert(ch[i] == pre[i]);
            assert(ch[i].name@ != ch[ch.len() - 1].name@);
        }
        assert forall|k: int| 0 <= k < es.len() implies exists|i: int|
            0 <= i < ch.len() && ch[i].name@ == #[trigger] es[k].0 by {
            if k < es0.len() {
                assert(es[k] == es0[k]);
                let i = choose|i: int| 0 <= i < pre.len() && pre[i].name@ == es0[k].0;
                assert(ch[i] == pre[i]);
            } else {
                assert(ch[ch.len() - 1].name@ == es[k].0);
            }
        }
        assert forall|k: int| 0 <= k < ds.len() implies exists|i: int|
            0 <= i < ch.len() && ch[i].name@ == #[trigger] ds[k].1 by {
            if k < ds0.len() {
                assert(ds[k] == ds0[k]);
                let i = choose|i: int| 0 <= i < pre.len() && pre[i].name@ == ds0[k].1;
                assert(ch[i] == pre[i]);
            } else {
                assert(ch[ch.len() - 1].name@ == ds[k].1);
            }
        }
        assert forall|a: int, b: int| 0 <= a < b < es.len() implies #[trigger] es[a].0
            != #[trigger] es[b].0 by {
            assert(es[a] == es0[a]);
            if b < es0.len() {
                assert(es[b] == es0[b]);
            }
        }
        assert forall|a: int, b: int| 0 <= a < b < ds.len() implies #[trigger] ds[a].1
            != #[trigger] ds[b].1 by {
            assert(ds[a] == ds0[a]);
            if b < ds0.len() {
                assert(ds[b] == ds0[b]);
            }
        }
        assert forall|a: int, b: int| 0 <= a < es.len() && 0 <= b < ds.len() implies #[trigger] es[a].0
            != #[trigger] ds[b].1 by {
            if a < es0.len() && b < ds0.len() {
                assert(es[a] == es0[a]);
                assert(ds[b] == ds0[b]);
            } else if a < es0.len() {
                assert(es[a] == es0[a]);
            } else {
                assert(ds[b] == ds0[b]);
            }
        }
    }
}

proof fn lemma_children_kept(ch: Seq<Child>, config: Cli)
    ensures
        forall|k: int|
            0 <= k < child_entries(ch, config).len() ==> is_shown(
                #[trigger] child_entries(ch, config)[k].0,
                config,
            ),
        forall|k: int|
            0 <= k < child_dirs(ch, config).len() ==> is_shown(
                #[trigger] child_dirs(ch, config)[k].1,
                config,
            ),
        forall|i: int|
            0 <= i < ch.len() && is_shown(#[trigger] ch[i].name@, config) ==> {
                let c = ch[i];
                child_entries(ch, config).contains((c.name@, c.meta)) || child_dirs(
                    ch,
                    config,
                ).contains((c.path@, c.name@, c.meta))
            },
    decreases ch.len(),
{
    if ch.len() > 0 {
        let pre = ch.drop_last();
        lemma_children_kept(pre, config);
        let es = child_entries(ch, config);
        let ds = child_dirs(ch, config);
        let es0 = child_entries(pre, config);
        let ds0 = child_dirs(pre, config);
        assert forall|i: int|
            0 <= i < ch.len() && is_shown(#[trigger] ch[i].name@, config) implies {
            let c = ch[i];
            es.contains((c.name@, c.meta)) || ds.contains((c.path@, c.name@, c.meta))
        } by {
            let c = ch[i];
            if i < ch.len() - 1 {
                assert(pre[i] == c);
                if es0.contains((c.name@, c.meta)) {
                    let k = choose|k: int| 0 <= k < es0.len() && es0[k] == (c.name@, c.meta);
                    assert(es[k] == es0[k]);
                } else {
                    let k = choose|k: int| 0 <= k < ds0.len() && ds0[k] == (c.path@, c.name@, c.meta);
                    assert(ds[k] == ds0[k]);
                }
            } else {
                if is_deferred(c, config) {
                    assert(ds[ds.len() - 1] == (c.path@, c.name@, c.meta));
                } else {
                    assert(es[es.len() - 1] == (c.name@, c.meta));
                }
            }
        }
    }
}

/// Whether a top-level directory is expanded in place: it is the only path,
/// recursion is off and directories are not listed as themselves.
pub open spec fn expands_in_place(meta: Meta, solo: bool, config: Cli) -> bool {
    meta.is_dir && solo && !config.recursive && !config.directory
}

/// Whether a top-level directory is deferred to a block of its own.
pub open spec fn defers(meta: Meta, solo: bool, config: Cli) -> bool {
    meta.is_dir && !config.directory && !expands_in_place(meta, solo, config)
}

/// Whether a top-level path is shown as an entry.
pub open spec fn shows(meta: Meta, config: Cli) -> bool {
    !meta.is_dir || config.directory
}

/// Classifies one readable top-level path: expanded in place (the result is
/// `true`, nothing is added), deferred as a pending directory, or shown as an
/// entry.
pub fn get_initial_entries(
    path: &String,
    meta: Meta,
    solo: bool,
    entries: &mut Vec<Entry>,
    dirs: &mut Vec<Directory>,
    config: &Cli,
) -> (expand: bool)
    ensures
        expand == expands_in_place(meta, solo, *config),
        defers(meta, solo, *config) ==> dirs_view(final(dirs)@) == dirs_view(old(dirs)@).push(
            (path@, path@, meta),
        ),
        !defers(meta, solo, *config) ==> final(dirs)@ == old(dirs)@,
        shows(meta, *config) ==> entries_view(final(entries)@) == entries_view(old(entries)@).push(
            (path@, meta),
        ),
        !shows(meta, *config) ==> final(entries)@ == old(entries)@,
{
    if meta.is_dir {
        if solo && !config.recursive && !config.directory {
            return true;
        }
        if !config.directory {
            let d = Directory { path: path.clone(), name: path.clone(), meta };
            let ghost dv = dirs@;
            dirs.push(d);
            proof {
                lemma_dirs_view_push(dv, d);
            }
        } else {
            let e = Entry { name: path.clone(), meta };
            let ghost ev = entries@;
            entries.push(e);
            proof {
                lemma_entries_view_push(ev, e);
            }
        }
    } else {
        let e = Entry { name: path.clone(), meta };
        let ghost ev = entries@;
        entries.push(e);
        proof {
            lemma_entries_view_push(ev, e);
        }
    }
    false
}

/// The entries that the readable top-level paths give.
pub open spec fn top_entries(probes: Seq<Probe>, solo: bool, config: Cli) -> Seq<(Seq<char>, Meta)>
    decreases probes.len(),
{
    if probes.len() == 0 {
        Seq::empty()
    } else {
        let rest = top_entries(probes.drop_last(), solo, config);
        let p = probes.last();
        match p.meta {
            Some(m) => if shows(m, config) {
                rest.push((p.path@, m))
            } else {
                rest
            },
            None => rest,
        }
    }
}

/// The pending directories that the readable top-level paths give.
pub open spec fn top_dirs(probes: Seq<Probe>, solo: bool, config: Cli) -> Seq<
    (Seq<char>, Seq<char>, Meta),
>
    decreases probes.len(),
{
    if probes.len() == 0 {
        Seq::empty()
    } else {
        let rest = top_dirs(probes.drop_last(), solo, config);
        let p = probes.last();
        match p.meta {
            Some(m) => if defers(m, solo, config) {
                rest.push((p.path@, p.path@, m))
            } else {
                rest
            },
            None => rest,
        }
    }
}

/// Whether a probed path is a readable directory expanded in place.
pub open spec fn probe_expands(p: Probe, solo: bool, config: Cli) -> bool {
    match p.meta {
        Some(m) => expands_in_place(m, solo, config),
        None => false,
    }
}

/// What the top-level paths give: entries, pending directories, and the
/// directory to expand in place, if any.
pub struct TopLevel {
    pub entries: Vec<Entry>,
    pub dirs: Vec<Directory>,
    pub expand: Option<String>,
}

/// The paths to list: those given, or the current directory.
pub fn listing_paths(config: &Cli) -> (r: Vec<String>)
    ensures
        config.paths@.len() == 0 ==> r@.len() == 1 && r@[0]@ == seq!['.'],
        config.paths@.len() > 0 ==> r@ == config.paths@,
{
    if config.paths.len() == 0 {
        let dot = String::from_str(".");
        proof {
            reveal_strlit(".");
            assert(dot@ =~= seq!['.']);
        }
        vec![dot]
    } else {
        config.paths.clone()
    }
}

/// Collects the top level of a listing from the probed paths. Unreadable
/// paths are skipped; a lone directory is marked for expansion in place;
/// other paths become entries or pending directories.
pub fn run(probes: &Vec<Probe>, config: &Cli) -> (r: TopLevel)
    ensures
        entries_view(r.entries@) == top_entries(probes@, probes@.len() == 1, *config),
        dirs_view(r.dirs@) == top_dirs(probes@, probes@.len() == 1, *config),
        r.expand is Some <==> (probes@.len() == 1 && probe_expands(probes@[0], true, *config)),
        r.expand matches Some(p) ==> p@ == probes@[0].path@,
{
    let solo = probes.len() == 1;
    let mut entries: Vec<Entry> = Vec::new();
    let mut dirs: Vec<Directory> = Vec::new();
    let mut expand: Option<String> = None;
    let n = probes.len();
    let mut i: usize = 0;
    while i < n
        invariant
            n == probes@.len(),
            solo == (n == 1),
            i <= n,
            entries_view(entries@) == top_entries(probes@.subrange(0, i as int), solo, *config),
            dirs_view(dirs@) == top_dirs(probes@.subrange(0, i as int), solo, *config),
            expand is Some <==> (exists|k: int|
                0 <= k < i && probe_expands(#[trigger] probes@[k], solo, *config)),
            expand matches Some(p) ==> solo && p@ == probes@[0].path@,
        decreases n - i,
    {
        let p = &probes[i];
        let ghost pre = probes@.subrange(0, i as int);
        let ghost next = probes@.subrange(0, i as int + 1);
        assert(next.drop_last() =~= pre);
        assert(next.last() == *p);
        match p.meta {
            Some(meta) => {
                if get_initial_entries(&p.path, meta, solo, &mut entries, &mut dirs, config) {
                    expand = Some(p.path.clone());
                }
            },
            None => {},
        }
        assert(entries_view(entries@) =~= top_entries(next, solo, *config));
        assert(dirs_view(dirs@) =~= top_dirs(next, solo, *config));
        i = i + 1;
    }
    assert(probes@.subrange(0, n as int) =~= probes@);
    TopLevel { entries, dirs, expand }
}

} // verus!
