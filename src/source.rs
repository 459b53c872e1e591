//! Lookup sources (directories, archives and ordered lists of them) and the
//! order in which a resource is looked for in them.
//!
//! Reading storage is left to the caller: a source gives the list of probes to
//! make for a resource, the caller makes them in order and hands the outcomes
//! back, and the source settles the lookup from them.
use crate::paths::{
    archive_suffix, class_to_path, ends_with, has_char, join_path, joined, spec_class_to_path,
    spec_join_path, split_path_list, trimmed, str_ends_with, views, PATH_LIST_SEPARATOR, WILDCARD,
};
use vstd::prelude::*;

verus! {

/// Why one probe gave no content.
#[derive(Clone, Copy, PartialEq, Eq, Structural, Debug)]
pub enum ProbeFailure {
    /// Nothing is stored under that name.
    NotFound,
    /// The storage could not be read.
    Unreadable,
}

/// What one probe gave: the bytes found, or why there are none.
pub type Outcome = Result<Vec<u8>, ProbeFailure>;

/// One storage location.
#[derive(Debug)]
pub enum Leaf {
    /// A directory tree, by its absolute root.
    Dir(String),
    /// An archive file, by its absolute path.
    Archive(String),
}

/// One read to make for a resource.
#[derive(Debug)]
pub enum Probe {
    /// Read the file at this path.
    File(String),
    /// Read the entry `entry` of the archive file `archive`.
    Entry { archive: String, entry: String },
}

/// A source of resources: one location, or an ordered list of them.
#[derive(Debug)]
pub enum Source {
    Single(Leaf),
    Composite(Vec<Leaf>),
}

/// A failed lookup: what was looked for, where, and why it gave nothing.
#[derive(Debug)]
pub struct LookupError {
    pub kind: ProbeFailure,
    pub class_name: String,
    pub location: String,
}

impl Leaf {
    /// The path of the location.
    pub open spec fn path(&self) -> Seq<char> {
        match self {
            Leaf::Dir(p) => p@,
            Leaf::Archive(p) => p@,
        }
    }

    /// How the location is shown: its path in parentheses.
    pub open spec fn text(&self) -> Seq<char> {
        seq!['('] + self.path() + seq![')']
    }

    /// Shows the location: its path in parentheses.
    pub fn describe(&self) -> (r: String)
        ensures
            r@ == self.text(),
    {
        proof {
            reveal_strlit("(");
            reveal_strlit(")");
        }
        let mut out = String::from_str("(");
        match self {
            Leaf::Dir(p) => out.append(p.as_str()),
            Leaf::Archive(p) => out.append(p.as_str()),
        }
        out.append(")");
        assert(out@ =~= self.text());
        out
    }

    /// The probe that looks for the storage path `class_path` in this location.
    pub fn probe(&self, class_path: &str) -> (r: Probe)
        ensures
            probe_for(*self, class_path@, r),
    {
        match self {
            Leaf::Dir(root) => Probe::File(join_path(root.as_str(), class_path)),
            Leaf::Archive(a) => Probe::Entry {
                archive: a.clone(),
                entry: String::from_str(class_path),
            },
        }
    }
}

/// Whether `p` is the probe for the storage path `class_path` in `l`.
pub open spec fn probe_for(l: Leaf, class_path: Seq<char>, p: Probe) -> bool {
    match l {
        Leaf::Dir(root) => p matches Probe::File(f) && f@ == spec_join_path(root@, class_path),
        Leaf::Archive(a) => p matches Probe::Entry { archive, entry } && archive@ == a@ && entry@
            == class_path,
    }
}

/// Whether `probes` are, in order, the probes for `class_path` in each of `leaves`.
pub open spec fn plans(leaves: Seq<Leaf>, class_path: Seq<char>, probes: Seq<Probe>) -> bool {
    &&& probes.len() == leaves.len()
    &&& forall|i: int| 0 <= i < leaves.len() ==> probe_for(leaves[i], class_path, #[trigger] probes[i])
}

/// The bytes of the first outcome that found any.
pub open spec fn first_hit(outs: Seq<Outcome>) -> Option<Seq<u8>>
    decreases outs.len(),
{
    if outs.len() == 0 {
        None
    } else {
        match outs[0] {
            Ok(b) => Some(b@),
            Err(_) => first_hit(outs.drop_first()),
        }
    }
}

/// Whether `r` settles a lookup whose first hit is `first`, with `complete` telling
/// whether every probe was made, and whose failure, where nothing was found, is of
/// kind `kind` for `class_name` at `location`: the bytes of the first hit; else,
/// while probes are left, nothing yet; else that failure.
pub open spec fn settled_by(
    first: Option<Seq<u8>>,
    complete: bool,
    kind: ProbeFailure,
    class_name: Seq<char>,
    location: Seq<char>,
    r: Option<Result<Vec<u8>, LookupError>>,
) -> bool {
    match first {
        Some(b) => r matches Some(Ok(v)) && v@ == b,
        None => if complete {
            r matches Some(Err(e)) && e.kind == kind && e.class_name@ == class_name && e.location@
                == location
        } else {
            r is None
        },
    }
}

/// The one found in the first outcome that found anything is the one returned:
/// an outcome after it changes nothing.
pub proof fn lemma_first_match_wins(outs: Seq<Outcome>, i: int)
    requires
        0 <= i < outs.len(),
        outs[i] is Ok,
        forall|j: int| 0 <= j < i ==> outs[j] is Err,
    ensures
        first_hit(outs) == Some(outs[i]->Ok_0@),
    decreases i,
{
    if i > 0 {
        assert forall|j: int| 0 <= j < i - 1 implies outs.drop_first()[j] is Err by {
            assert(outs[j + 1] is Err);
        }
        lemma_first_match_wins(outs.drop_first(), i - 1);
    }
}

/// Whatever a lookup settles to, once the probe of some location has hit and the
/// probes of every location before it have failed, it is that location's bytes,
/// whatever the later locations hold.
pub proof fn lemma_earlier_location_wins(
    first: Option<Seq<u8>>,
    outs: Seq<Outcome>,
    i: int,
    complete: bool,
    kind: ProbeFailure,
    class_name: Seq<char>,
    location: Seq<char>,
    r: Option<Result<Vec<u8>, LookupError>>,
)
    requires
        first == first_hit(outs),
        settled_by(first, complete, kind, class_name, location, r),
        0 <= i < outs.len(),
        outs[i] is Ok,
        forall|j: int| 0 <= j < i ==> outs[j] is Err,
    ensures
        r matches Some(Ok(v)) && v@ == outs[i]->Ok_0@,
{
    lemma_first_match_wins(outs, i);
}

/// Appending outcomes after a hit does not change the first hit; after none,
/// the first hit is that of the appended outcomes.
pub proof fn lemma_first_hit_append(a: Seq<Outcome>, b: Seq<Outcome>)
    ensures
        first_hit(a) is Some ==> first_hit(a + b) == first_hit(a),
        first_hit(a) is None ==> first_hit(a + b) == first_hit(b),
    decreases a.len(),
{
    if a.len() == 0 {
        assert(a + b =~= b);
    } else {
        assert((a + b)[0] == a[0]);
        assert((a + b).drop_first() =~= a.drop_first() + b);
        lemma_first_hit_append(a.drop_first(), b);
    }
}

/// A location added in front whose probe failed, or any location added at the
/// end, leaves the bytes found by a lookup that found some unchanged.
pub proof fn lemma_failed_front_or_any_back(outs: Seq<Outcome>, failed: Outcome, extra: Outcome)
    requires
        failed is Err,
        first_hit(outs) is Some,
    ensures
        first_hit(seq![failed] + outs) == first_hit(outs),
        first_hit(outs.push(extra)) == first_hit(outs),
{
    lemma_first_hit_append(seq![failed], outs);
    assert(first_hit(seq![failed]) is None) by {
        let one = seq![failed];
        assert(one[0] is Err);
        assert(one.drop_first() =~= Seq::<Outcome>::empty());
        assert(first_hit(one.drop_first()) is None);
    }
    lemma_first_hit_append(outs, seq![extra]);
    assert(outs + seq![extra] =~= outs.push(extra));
}

/// The first hit of `outs` does not change once a failure at its front is dropped.
proof fn lemma_first_hit_skip(outs: Seq<Outcome>, i: int)
    requires
        0 <= i < outs.len(),
        outs[i] is Err,
    ensures
        first_hit(outs.subrange(i, outs.len() as int)) == first_hit(
            outs.subrange(i + 1, outs.len() as int),
        ),
{
    let s = outs.subrange(i, outs.len() as int);
    assert(s.drop_first() =~= outs.subrange(i + 1, outs.len() as int));
}

/// Where the first outcome that found anything stands.
fn first_hit_index(outs: &Vec<Outcome>) -> (r: Option<usize>)
    ensures
        match r {
            Some(i) => i < outs@.len() && outs@[i as int] is Ok && first_hit(outs@) == Some(
                outs@[i as int]->Ok_0@,
            ),
            None => first_hit(outs@) is None,
        },
{
    let ghost all = outs@;
    let n = outs.len();
    let mut i: usize = 0;
    assert(all.subrange(0, n as int) =~= all);
    while i < n
        invariant
            outs@ == all,
            n == all.len(),
            i <= n,
            first_hit(all) == first_hit(all.subrange(i as int, n as int)),
        decreases n - i,
    {
        if outs[i].is_ok() {
            assert(all.subrange(i as int, n as int)[0] == all[i as int]);
            return Some(i);
        }
        proof {
            lemma_first_hit_skip(all, i as int);
        }
        i = i + 1;
    }
    None
}

/// The bytes of the first outcome that found any, taken out of `outcomes`.
pub(crate) fn take_first_hit(outcomes: Vec<Outcome>) -> (r: Option<Vec<u8>>)
    ensures
        match r {
            Some(b) => first_hit(outcomes@) == Some(b@),
            None => first_hit(outcomes@) is None,
        },
{
    match first_hit_index(&outcomes) {
        Some(i) => {
            let mut outs = outcomes;
            match outs.swap_remove(i) {
                Ok(b) => Some(b),
                Err(_) => None,
            }
        },
        None => None,
    }
}

/// Appends to `out`, in order, the probes for `class_path` in each of `leaves`.
fn append_probes(leaves: &Vec<Leaf>, class_path: &str, out: &mut Vec<Probe>)
    ensures
        final(out)@.len() == old(out)@.len() + leaves@.len(),
        final(out)@.subrange(0, old(out)@.len() as int) == old(out)@,
        plans(
            leaves@,
            class_path@,
            final(out)@.subrange(old(out)@.len() as int, final(out)@.len() as int),
        ),
{
    let ghost start = old(out)@;
    let mut i: usize = 0;
    while i < leaves.len()
        invariant
            i <= leaves@.len(),
            out@.len() == start.len() + i,
            out@.subrange(0, start.len() as int) == start,
            forall|j: int|
                0 <= j < i ==> probe_for(leaves@[j], class_path@, #[trigger] out@[start.len() + j]),
        decreases leaves@.len() - i,
    {
        let p = leaves[i].probe(class_path);
        let ghost before = out@;
        out.push(p);
        assert(out@.subrange(0, start.len() as int) =~= before.subrange(0, start.len() as int));
        i = i + 1;
    }
    let ghost tail = out@.subrange(start.len() as int, out@.len() as int);
    assert forall|j: int| 0 <= j < leaves@.len() implies probe_for(
        leaves@[j],
        class_path@,
        #[trigger] tail[j],
    ) by {
        assert(tail[j] == out@[start.len() + j]);
    }
}

impl LookupError {
    /// The failure as a sentence naming the resource and the location.
    pub fn message(&self) -> (r: String)
        ensures
            r@ == (match self.kind {
                ProbeFailure::NotFound => "not found class: "@,
                ProbeFailure::Unreadable => "cannot read class: "@,
            }) + self.class_name@ + " in path: "@ + self.location@,
    {
        let mut out = match self.kind {
            ProbeFailure::NotFound => String::from_str("not found class: "),
            ProbeFailure::Unreadable => String::from_str("cannot read class: "),
        };
        out.append(self.class_name.as_str());
        out.append(" in path: ");
        out.append(self.location.as_str());
        out
    }
}

impl Source {
    /// The locations of the source, in the order they are searched.
    pub open spec fn leaves(&self) -> Seq<Leaf> {
        match self {
            Source::Single(l) => seq![*l],
            Source::Composite(v) => v@,
        }
    }

    /// How the source is shown: one location in parentheses, or the list's
    /// locations so shown, joined by the path-list separator.
    pub open spec fn text(&self) -> Seq<char> {
        match self {
            Source::Single(l) => l.text(),
            Source::Composite(v) => joined(v@.map_values(|l: Leaf| l.text()), ':'),
        }
    }

    /// The kind of failure of a lookup that found nothing in `outs`: that of the
    /// one location's outcome, and for a list always "not found".
    pub open spec fn failure_kind(&self, outs: Seq<Outcome>) -> ProbeFailure {
        match self {
            Source::Single(_) => if outs.len() > 0 && outs[0] is Err {
                outs[0]->Err_0
            } else {
                ProbeFailure::NotFound
            },
            Source::Composite(_) => ProbeFailure::NotFound,
        }
    }

    /// Shows the source (see `text`).
    pub fn describe(&self) -> (r: String)
        ensures
            r@ == self.text(),
    {
        match self {
            Source::Single(l) => l.describe(),
            Source::Composite(v) => {
                let ghost texts = v@.map_values(|l: Leaf| l.text());
                let mut out = String::new();
                let mut i: usize = 0;
                while i < v.len()
                    invariant
                        i <= v@.len(),
                        texts == v@.map_values(|l: Leaf| l.text()),
                        out@ == joined(texts.subrange(0, i as int), ':'),
                    decreases v@.len() - i,
                {
                    let ghost before = out@;
                    if i > 0 {
                        proof {
                            reveal_strlit(":");
                        }
                        out.append(":");
                    }
                    let d = v[i].describe();
                    out.append(d.as_str());
                    proof {
                        let now = texts.subrange(0, i + 1);
                        assert(now.drop_last() =~= texts.subrange(0, i as int));
                        assert(out@ =~= joined(now, ':'));
                    }
                    i = i + 1;
                }
                assert(texts.subrange(0, v@.len() as int) =~= texts);
                out
            },
        }
    }

    /// How many locations the source has.
    pub fn leaf_count(&self) -> (r: usize)
        ensures
            r == self.leaves().len(),
    {
        match self {
            Source::Single(_) => 1,
            Source::Composite(v) => v.len(),
        }
    }

    /// Appends to `out`, in order, the probes for `class_path` in each location.
    pub(crate) fn append_plan(&self, class_path: &str, out: &mut Vec<Probe>)
        ensures
            final(out)@.len() == old(out)@.len() + self.leaves().len(),
            final(out)@.subrange(0, old(out)@.len() as int) == old(out)@,
            plans(
                self.leaves(),
                class_path@,
                final(out)@.subrange(old(out)@.len() as int, final(out)@.len() as int),
            ),
    {
        match self {
            Source::Single(l) => {
                let ghost before = out@;
                out.push(l.probe(class_path));
                assert(out@.subrange(0, before.len() as int) =~= before);
                assert(out@.subrange(before.len() as int, out@.len() as int)[0] == out@.last());
            },
            Source::Composite(v) => append_probes(v, class_path, out),
        }
    }

    /// The failure kind of a lookup that found nothing in the outcomes from `at` on.
    pub(crate) fn failure_kind_at(&self, outs: &Vec<Outcome>, at: usize) -> (r: ProbeFailure)
        requires
            at <= outs@.len(),
        ensures
            r == self.failure_kind(outs@.subrange(at as int, outs@.len() as int)),
    {
        match self {
            Source::Single(_) => {
                if at < outs.len() {
                    match &outs[at] {
                        Err(k) => *k,
                        Ok(_) => ProbeFailure::NotFound,
                    }
                } else {
                    ProbeFailure::NotFound
                }
            },
            Source::Composite(_) => ProbeFailure::NotFound,
        }
    }

    /// The probes for the resource `class_name`, one for each location, in order.
    pub fn plan(&self, class_name: &str) -> (r: Vec<Probe>)
        ensures
            plans(self.leaves(), spec_class_to_path(class_name@), r@),
    {
        let class_path = class_to_path(class_name);
        let mut out: Vec<Probe> = Vec::new();
        match self {
            Source::Single(l) => {
                out.push(l.probe(class_path.as_str()));
            },
            Source::Composite(v) => {
                append_probes(v, class_path.as_str(), &mut out);
                assert(out@ =~= out@.subrange(0, out@.len() as int));
            },
        }
        out
    }

    /// Settles the lookup of `class_name` from the outcomes of the probes made so
    /// far, in the order of `plan`: the bytes of the first hit; nothing yet while
    /// no probe has hit and some are left; once all have failed, the source's failure,
    /// which names the resource and shows the source.
    pub fn settle(&self, class_name: &str, outcomes: Vec<Outcome>) -> (r: Option<
        Result<Vec<u8>, LookupError>,
    >)
        requires
            outcomes@.len() <= self.leaves().len(),
        ensures
            settled_by(
                first_hit(outcomes@),
                outcomes@.len() == self.leaves().len(),
                self.failure_kind(outcomes@),
                class_name@,
                self.text(),
                r,
            ),
    {
        let complete = match self {
            Source::Single(_) => outcomes.len() == 1,
            Source::Composite(v) => outcomes.len() == v.len(),
        };
        let kind = self.failure_kind_at(&outcomes, 0);
        assert(outcomes@.subrange(0, outcomes@.len() as int) =~= outcomes@);
        match take_first_hit(outcomes) {
            Some(b) => Some(Ok(b)),
            None => {
                if complete {
                    Some(
                        Err(
                            LookupError {
                                kind,
                                class_name: String::from_str(class_name),
                                location: self.describe(),
                            },
                        ),
                    )
                } else {
                    None
                }
            },
        }
    }
}


/// What is found at a path on disk.
#[derive(Clone, Copy, PartialEq, Eq, Structural, Debug)]
pub enum PathKind {
    Missing,
    File,
    Directory,
}

/// Why a source could not be built.
#[derive(Debug)]
pub enum ConfigError {
    /// The root of a directory source is missing or not a directory.
    NotADirectory(String),
    /// The file of an archive source is missing or not a regular file.
    NotAFile(String),
    /// A directory of archives could not be listed.
    Unlistable(String),
    /// None of the places where a runtime home may be exists.
    NoRuntimeHome,
}

/// A piece of a path list whose source could not be built, and why.
#[derive(Debug)]
pub struct Skipped {
    pub segment: String,
    pub reason: ConfigError,
}

/// The kind of source that a configured path asks for.
#[derive(Debug)]
pub enum EntryPlan {
    /// A path list: one source for each piece, searched in order.
    List(Vec<String>),
    /// The archives directly inside this directory.
    Wildcard(String),
    /// One archive file.
    ArchiveFile(String),
    /// One directory tree.
    Directory(String),
}

/// Relies on `str::trim`: `s` with the Unicode white space at both ends cut off.
#[verifier::external_body]
pub(crate) fn trim(s: &str) -> (r: &str)
    ensures
        r@ == trimmed(s@),
{
    s.trim()
}

/// Whether `p` is the kind of source asked for by the trimmed path `t`: a list
/// where `t` holds a path-list separator; else the archives of a directory where
/// it ends with the wildcard; else an archive where it ends with the archive
/// suffix; else a directory.
pub open spec fn is_plan_for(t: Seq<char>, p: EntryPlan) -> bool {
    if t.contains(PATH_LIST_SEPARATOR) {
        p matches EntryPlan::List(segs) && segs@.len() >= 1 && joined(views(segs@), PATH_LIST_SEPARATOR)
            == t && forall|k: int|
            0 <= k < segs@.len() ==> !(#[trigger] segs@[k])@.contains(PATH_LIST_SEPARATOR)
    } else if t.len() > 0 && t.last() == WILDCARD {
        p matches EntryPlan::Wildcard(d) && d@ == t.drop_last()
    } else if ends_with(t, archive_suffix()) {
        p matches EntryPlan::ArchiveFile(f) && f@ == t
    } else {
        p matches EntryPlan::Directory(d) && d@ == t
    }
}

/// Decides which kind of source the configured `path` asks for (see `is_plan_for`),
/// after cutting white space off both its ends.
pub fn plan_entry(path: &str) -> (r: EntryPlan)
    ensures
        is_plan_for(trimmed(path@), r),
{
    let t = trim(path);
    if has_char(t, PATH_LIST_SEPARATOR) {
        return EntryPlan::List(split_path_list(t));
    }
    let n = t.unicode_len();
    if n > 0 && t.get_char(n - 1) == WILDCARD {
        return EntryPlan::Wildcard(String::from_str(t.substring_char(0, n - 1)));
    }
    proof {
        reveal_strlit(".jar");
    }
    assert(".jar"@ =~= archive_suffix());
    if str_ends_with(t, ".jar") {
        EntryPlan::ArchiveFile(String::from_str(t))
    } else {
        EntryPlan::Directory(String::from_str(t))
    }
}

/// The paths of the archives among `names`, each inside `dir`, in order.
pub open spec fn archives_in(dir: Seq<char>, names: Seq<Seq<char>>) -> Seq<Seq<char>>
    decreases names.len(),
{
    if names.len() == 0 {
        Seq::empty()
    } else {
        let rest = archives_in(dir, names.drop_last());
        if ends_with(names.last(), archive_suffix()) {
            rest.push(spec_join_path(dir, names.last()))
        } else {
            rest
        }
    }
}

/// The locations of the sources that were built, in order.
pub open spec fn kept_leaves(built: Seq<Result<Source, ConfigError>>) -> Seq<Leaf>
    decreases built.len(),
{
    if built.len() == 0 {
        Seq::empty()
    } else {
        (match built[0] {
            Ok(s) => s.leaves(),
            Err(_) => Seq::empty(),
        }) + kept_leaves(built.drop_first())
    }
}

/// The pieces whose source could not be built, with the reason, in order.
pub open spec fn skipped_of(segments: Seq<String>, built: Seq<Result<Source, ConfigError>>) -> Seq<
    Skipped,
>
    decreases built.len(),
{
    if built.len() == 0 || segments.len() == 0 {
        Seq::empty()
    } else {
        (match built[0] {
            Ok(_) => Seq::empty(),
            Err(e) => seq![Skipped { segment: segments[0], reason: e }],
        }) + skipped_of(segments.drop_first(), built.drop_first())
    }
}

/// Moves the locations of each built source to `leaves` and each failed piece to
/// `skipped`, emptying `segments` and `built`.
fn drain_built(
    segments: &mut Vec<String>,
    built: &mut Vec<Result<Source, ConfigError>>,
    leaves: &mut Vec<Leaf>,
    skipped: &mut Vec<Skipped>,
)
    requires
        old(segments)@.len() == old(built)@.len(),
    ensures
        final(leaves)@ == old(leaves)@ + kept_leaves(old(built)@),
        final(skipped)@ == old(skipped)@ + skipped_of(old(segments)@, old(built)@),
{
    let ghost l0 = old(leaves)@;
    let ghost s0 = old(skipped)@;
    let ghost b0 = old(built)@;
    let ghost g0 = old(segments)@;
    while built.len() > 0
        invariant
            segments@.len() == built@.len(),
            leaves@ + kept_leaves(built@) == l0 + kept_leaves(b0),
            skipped@ + skipped_of(segments@, built@) == s0 + skipped_of(g0, b0),
        decreases built@.len(),
    {
        let ghost bs = built@;
        let ghost gs = segments@;
        let ghost lv = leaves@;
        let ghost sk = skipped@;
        let b = built.remove(0);
        let g = segments.remove(0);
        assert(built@ =~= bs.drop_first());
        assert(segments@ =~= gs.drop_first());
        match b {
            Ok(src) => {
                match src {
                    Source::Single(l) => {
                        leaves.push(l);
                        assert(leaves@ =~= lv + seq![l]);
                    },
                    Source::Composite(v) => {
                        let mut v = v;
                        leaves.append(&mut v);
                    },
                }
                assert(leaves@ + kept_leaves(built@) =~= lv + kept_leaves(bs));
                assert(skipped@ + skipped_of(segments@, built@) =~= sk + skipped_of(gs, bs));
            },
            Err(e) => {
                skipped.push(Skipped { segment: g, reason: e });
                assert(skipped@ + skipped_of(segments@, built@) =~= sk + skipped_of(gs, bs));
                assert(leaves@ + kept_leaves(built@) =~= lv + kept_leaves(bs));
            },
        }
    }
    assert(leaves@ =~= l0 + kept_leaves(b0));
    assert(skipped@ =~= s0 + skipped_of(g0, b0));
}

impl Source {
    /// A directory source over the canonical path `root`, which is a `kind` on
    /// disk: built only where that is a directory.
    pub fn dir(root: String, kind: PathKind) -> (r: Result<Source, ConfigError>)
        ensures
            kind == PathKind::Directory ==> r == Ok::<Source, ConfigError>(
                Source::Single(Leaf::Dir(root)),
            ),
            kind != PathKind::Directory ==> (r matches Err(ConfigError::NotADirectory(p)) && p@
                == root@),
    {
        if kind == PathKind::Directory {
            Ok(Source::Single(Leaf::Dir(root)))
        } else {
            Err(ConfigError::NotADirectory(root))
        }
    }

    /// An archive source over the canonical path `file`, which is a `kind` on
    /// disk: built only where that is a regular file.
    pub fn archive(file: String, kind: PathKind) -> (r: Result<Source, ConfigError>)
        ensures
            kind == PathKind::File ==> r == Ok::<Source, ConfigError>(
                Source::Single(Leaf::Archive(file)),
            ),
            kind != PathKind::File ==> (r matches Err(ConfigError::NotAFile(p)) && p@ == file@),
    {
        if kind == PathKind::File {
            Ok(Source::Single(Leaf::Archive(file)))
        } else {
            Err(ConfigError::NotAFile(file))
        }
    }

    /// The list of the archives directly inside `dir`, whose entries are named in
    /// `listing` (`None` where the directory could not be listed): one archive
    /// source for each name with the archive suffix, in the listing's order.
    pub fn from_listing(dir: &str, listing: Option<Vec<String>>) -> (r: Result<
        Source,
        ConfigError,
    >)
        ensures
            listing is None ==> (r matches Err(ConfigError::Unlistable(p)) && p@ == dir@),
            listing matches Some(names) ==> (r matches Ok(Source::Composite(v)) && v@.len()
                == archives_in(dir@, views(names@)).len() && forall|i: int|
                0 <= i < v@.len() ==> (#[trigger] v@[i]) is Archive && v@[i].path() == archives_in(
                    dir@,
                    views(names@),
                )[i]),
    {
        match &listing {
            None => Err(ConfigError::Unlistable(String::from_str(dir))),
            Some(names) => {
                let ghost all = views(names@);
                let mut v: Vec<Leaf> = Vec::new();
                let mut i: usize = 0;
                proof {
                    reveal_strlit(".jar");
                }
                assert(".jar"@ =~= archive_suffix());
                while i < names.len()
                    invariant
                        i <= names@.len(),
                        all == views(names@),
                        ".jar"@ == archive_suffix(),
                        v@.len() == archives_in(dir@, all.subrange(0, i as int)).len(),
                        forall|k: int|
                            0 <= k < v@.len() ==> (#[trigger] v@[k]) is Archive && v@[k].path()
                                == archives_in(dir@, all.subrange(0, i as int))[k],
                    decreases names@.len() - i,
                {
                    let ghost prev = archives_in(dir@, all.subrange(0, i as int));
                    assert(all.subrange(0, i + 1).drop_last() =~= all.subrange(0, i as int));
                    assert(all.subrange(0, i + 1).last() == names@[i as int]@);
                    if str_ends_with(names[i].as_str(), ".jar") {
                        v.push(Leaf::Archive(join_path(dir, names[i].as_str())));
                    }
                    i = i + 1;
                }
                assert(all.subrange(0, names@.len() as int) =~= all);
                Ok(Source::Composite(v))
            },
        }
    }

    /// The list made of a path list's pieces, `segments`, whose sources were built
    /// (or not) into `built`, one for each piece: the locations of the built ones
    /// in order, and the pieces that were skipped, with the reason.
    pub fn from_segments(segments: Vec<String>, built: Vec<Result<Source, ConfigError>>) -> (r: (
        Source,
        Vec<Skipped>,
    ))
        requires
            segments@.len() == built@.len(),
        ensures
            r.0 matches Source::Composite(v) && v@ == kept_leaves(built@),
            r.1@ == skipped_of(segments@, built@),
    {
        let mut segments = segments;
        let mut built = built;
        let mut leaves: Vec<Leaf> = Vec::new();
        let mut skipped: Vec<Skipped> = Vec::new();
        drain_built(&mut segments, &mut built, &mut leaves, &mut skipped);
        assert(leaves@ =~= Seq::<Leaf>::empty() + leaves@);
        (Source::Composite(leaves), skipped)
    }
}

} // verus!
