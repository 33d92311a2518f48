//! Where the time of a check went.
use crate::order::{key_list, positions, rank, ranking};
use crate::path::{base_name, file_name};
use crate::search::records::{diagnostic_views, Diagnostic, DiagnosticView};
use crate::state::display::{append_diagnostics, diagnostic_section};
use crate::text::layout::{
    front, listed, one_line, push_list, shortened, single_line, truncate_line,
};
use crate::text::make::{
    cat2, cat3, own, prefix_all, prefix_step, push_str, same, strings,
};
use crate::text::number::{decimal, show, show_size};
use crate::text::scan::opt_string;
use vstd::prelude::*;

verus! {

/// One measured part of a check.
#[derive(Debug)]
pub struct ProfileEntry {
    pub kind: String,
    pub line: u64,
    pub column: u64,
    pub detail: String,
    /// The duration as it is shown.
    pub duration: String,
    /// A number that is larger for a longer duration.
    pub weight: u64,
}

/// The contents of a [`ProfileEntry`].
pub struct ProfileEntryView {
    pub kind: Seq<char>,
    pub line: u64,
    pub column: u64,
    pub detail: Seq<char>,
    pub duration: Seq<char>,
    pub weight: u64,
}

impl View for ProfileEntry {
    type V = ProfileEntryView;

    open spec fn view(&self) -> ProfileEntryView {
        ProfileEntryView {
            kind: self.kind@,
            line: self.line,
            column: self.column,
            detail: self.detail@,
            duration: self.duration@,
            weight: self.weight,
        }
    }
}

/// The contents of a list of entries.
pub open spec fn profile_entries(list: Seq<ProfileEntry>) -> Seq<ProfileEntryView> {
    list.map_values(|e: ProfileEntry| e@)
}

/// The times of one file.
#[derive(Debug)]
pub struct FileProfile {
    pub target: String,
    pub mode: String,
    pub total_ms: u64,
    pub dependencies_ms: u64,
    pub cache_ms: u64,
    pub setup_ms: u64,
    pub elaborate_ms: u64,
    pub queue_ms: u64,
    pub reused_prefix_lines: Option<u64>,
    pub entries: Vec<ProfileEntry>,
}

/// The contents of a [`FileProfile`].
pub struct FileProfileView {
    pub target: Seq<char>,
    pub mode: Seq<char>,
    pub total_ms: u64,
    pub dependencies_ms: u64,
    pub cache_ms: u64,
    pub setup_ms: u64,
    pub elaborate_ms: u64,
    pub queue_ms: u64,
    pub reused_prefix_lines: Option<u64>,
    pub entries: Seq<ProfileEntryView>,
}

impl View for FileProfile {
    type V = FileProfileView;

    open spec fn view(&self) -> FileProfileView {
        FileProfileView {
            target: self.target@,
            mode: self.mode@,
            total_ms: self.total_ms,
            dependencies_ms: self.dependencies_ms,
            cache_ms: self.cache_ms,
            setup_ms: self.setup_ms,
            elaborate_ms: self.elaborate_ms,
            queue_ms: self.queue_ms,
            reused_prefix_lines: self.reused_prefix_lines,
            entries: profile_entries(self.entries@),
        }
    }
}

/// The contents of a list of files.
pub open spec fn file_profiles(list: Seq<FileProfile>) -> Seq<FileProfileView> {
    list.map_values(|f: FileProfile| f@)
}

/// The times of a check.
#[derive(Debug)]
pub struct CheckProfile {
    pub planning_ms: u64,
    pub files: Vec<FileProfile>,
}

/// The contents of a [`CheckProfile`].
pub struct CheckProfileView {
    pub planning_ms: u64,
    pub files: Seq<FileProfileView>,
}

impl View for CheckProfile {
    type V = CheckProfileView;

    open spec fn view(&self) -> CheckProfileView {
        CheckProfileView { planning_ms: self.planning_ms, files: file_profiles(self.files@) }
    }
}

/// A measured part with the file that it belongs to.
pub struct Hotspot {
    pub target: Seq<char>,
    pub entry: ProfileEntryView,
}

/// The parts of one file.
pub open spec fn spots_of(target: Seq<char>, entries: Seq<ProfileEntryView>) -> Seq<Hotspot> {
    entries.map_values(|e: ProfileEntryView| Hotspot { target, entry: e })
}

/// The parts of all files, in order.
pub open spec fn all_spots(files: Seq<FileProfileView>) -> Seq<Hotspot>
    decreases files.len(),
{
    if files.len() == 0 {
        Seq::empty()
    } else {
        all_spots(files.drop_last()) + spots_of(files.last().target, files.last().entries)
    }
}

/// A reference to a measured part.
struct Spot<'a> {
    target: &'a str,
    entry: &'a ProfileEntry,
}

spec fn spot_views(list: Seq<Spot>) -> Seq<Hotspot> {
    list.map_values(|s: Spot| Hotspot { target: s.target@, entry: s.entry@ })
}

fn collect_spots<'a>(files: &'a Vec<FileProfile>) -> (r: Vec<Spot<'a>>)
    ensures
        spot_views(r@) == all_spots(file_profiles(files@)),
{
    let ghost views = file_profiles(files@);
    let mut out: Vec<Spot<'a>> = Vec::new();
    assert(spot_views(out@) =~= Seq::empty());
    for i in 0..files.len()
        invariant
            views == file_profiles(files@),
            spot_views(out@) == all_spots(views.take(i as int)),
    {
        proof {
            prefix_step(views, i as int);
        }
        let file = &files[i];
        assert(views[i as int] == file@);
        let ghost before = spot_views(out@);
        let ghost wanted = spots_of(file@.target, file@.entries);
        assert(before + wanted.take(0) =~= before);
        for j in 0..file.entries.len()
            invariant
                wanted == spots_of(file@.target, file@.entries),
                wanted.len() == file.entries.len(),
                spot_views(out@) == before + wanted.take(j as int),
        {
            let spot = Spot { target: file.target.as_str(), entry: &file.entries[j] };
            let ghost prior = spot_views(out@);
            out.push(spot);
            assert(spot_views(out@) =~= prior.push(wanted[j as int]));
            assert(spot_views(out@) =~= before + wanted.take(j + 1));
        }
        proof {
            prefix_all(wanted);
        }
    }
    proof {
        prefix_all(views);
    }
    out
}

/// The key that orders by duration, the longest first.
pub open spec fn spot_keys(list: Seq<Hotspot>) -> Seq<Seq<u64>> {
    list.map_values(|s: Hotspot| seq![(u64::MAX - s.entry.weight) as u64])
}

/// The parts in the order of their durations, the longest first.
pub open spec fn sorted_spots(list: Seq<Hotspot>) -> Seq<Hotspot> {
    ranking(spot_keys(list)).map_values(|i: int| list[i])
}

fn sort_spots<'a>(list: Vec<Spot<'a>>) -> (r: Vec<Spot<'a>>)
    ensures
        spot_views(r@) == sorted_spots(spot_views(list@)),
{
    let ghost views = spot_views(list@);
    let ghost wanted = spot_keys(views);
    let mut keys: Vec<Vec<u64>> = Vec::new();
    assert(key_list(keys@) =~= wanted.take(0));
    for i in 0..list.len()
        invariant
            views == spot_views(list@),
            wanted == spot_keys(views),
            keys.len() == i,
            key_list(keys@) == wanted.take(i as int),
    {
        proof {
            prefix_step(wanted, i as int);
        }
        let mut key: Vec<u64> = Vec::new();
        key.push(u64::MAX - list[i].entry.weight);
        assert(key@ =~= wanted[i as int]);
        let ghost before = key_list(keys@);
        keys.push(key);
        assert(key_list(keys@) =~= before.push(wanted[i as int]));
    }
    proof {
        prefix_all(wanted);
    }
    let order = rank(&keys);
    let ghost sorted = sorted_spots(views);
    assert(positions(order@).len() == order.len());
    let mut out: Vec<Spot<'a>> = Vec::new();
    assert(spot_views(out@) =~= sorted.take(0));
    for i in 0..order.len()
        invariant
            order.len() == keys.len(),
            list.len() == keys.len(),
            views == spot_views(list@),
            forall|j: int| 0 <= j < order.len() ==> (#[trigger] order@[j]) < keys.len(),
            positions(order@) == ranking(key_list(keys@)),
            key_list(keys@) == spot_keys(views),
            sorted == sorted_spots(views),
            sorted.len() == order.len(),
            spot_views(out@) == sorted.take(i as int),
    {
        proof {
            prefix_step(sorted, i as int);
            assert(positions(order@)[i as int] == order@[i as int] as int);
        }
        let spot = Spot { target: list[order[i]].target, entry: list[order[i]].entry };
        let ghost before = spot_views(out@);
        out.push(spot);
        assert(spot_views(out@) =~= before.push(sorted[i as int]));
    }
    proof {
        prefix_all(sorted);
    }
    out
}

/// Some listed part stands on the same line of the same file.
pub open spec fn same_line_in(list: Seq<Hotspot>, s: Hotspot) -> bool {
    exists|i: int|
        0 <= i < list.len() && (#[trigger] list[i]).target == s.target && list[i].entry.line
            == s.entry.line
}

/// The parts that stand on a line of a source, the first on each line.
pub open spec fn source_spots(list: Seq<Hotspot>) -> Seq<Hotspot>
    decreases list.len(),
{
    if list.len() == 0 {
        Seq::empty()
    } else {
        let earlier = source_spots(list.drop_last());
        if list.last().entry.line > 0 && !same_line_in(earlier, list.last()) {
            earlier.push(list.last())
        } else {
            earlier
        }
    }
}

/// The parts without a line that say what they are about.
pub open spec fn named_spots(list: Seq<Hotspot>) -> Seq<Hotspot>
    decreases list.len(),
{
    if list.len() == 0 {
        Seq::empty()
    } else {
        let earlier = named_spots(list.drop_last());
        if list.last().entry.line == 0 && list.last().entry.detail.len() > 0 {
            earlier.push(list.last())
        } else {
            earlier
        }
    }
}

/// The parts without a line and without a detail.
pub open spec fn component_spots(list: Seq<Hotspot>) -> Seq<Hotspot>
    decreases list.len(),
{
    if list.len() == 0 {
        Seq::empty()
    } else {
        let earlier = component_spots(list.drop_last());
        if list.last().entry.line == 0 && list.last().entry.detail.len() == 0 {
            earlier.push(list.last())
        } else {
            earlier
        }
    }
}

/// No line of a file is shown twice.
pub proof fn source_lines_are_shown_once(list: Seq<Hotspot>, i: int, j: int)
    requires
        0 <= i < j < source_spots(list).len(),
    ensures
        source_spots(list)[i].target != source_spots(list)[j].target || source_spots(
            list,
        )[i].entry.line != source_spots(list)[j].entry.line,
    decreases list.len(),
{
    let earlier = source_spots(list.drop_last());
    if j < earlier.len() {
        source_lines_are_shown_once(list.drop_last(), i, j);
    } else {
        assert(earlier[i] == source_spots(list)[i]);
    }
}

fn is_same_line_in(list: &Vec<Spot>, s: &Spot) -> (r: bool)
    ensures
        r == same_line_in(
            spot_views(list@),
            Hotspot { target: s.target@, entry: s.entry@ },
        ),
{
    for i in 0..list.len()
        invariant
            forall|j: int|
                0 <= j < i ==> !((#[trigger] spot_views(list@)[j]).target == s.target@
                    && spot_views(list@)[j].entry.line == s.entry@.line),
    {
        assert(spot_views(list@)[i as int].target == list@[i as int].target@);
        if list[i].entry.line == s.entry.line && same(list[i].target, s.target) {
            return true;
        }
    }
    false
}

struct Sections<'a> {
    source: Vec<Spot<'a>>,
    named: Vec<Spot<'a>>,
    components: Vec<Spot<'a>>,
}

fn spot_of<'a>(s: &Spot<'a>) -> (r: Spot<'a>)
    ensures
        r.target@ == s.target@,
        r.entry@ == s.entry@,
{
    Spot { target: s.target, entry: s.entry }
}

fn divide_spots<'a>(list: &Vec<Spot<'a>>) -> (r: Sections<'a>)
    ensures
        spot_views(r.source@) == source_spots(spot_views(list@)),
        spot_views(r.named@) == named_spots(spot_views(list@)),
        spot_views(r.components@) == component_spots(spot_views(list@)),
{
    let ghost views = spot_views(list@);
    let mut source: Vec<Spot<'a>> = Vec::new();
    let mut named: Vec<Spot<'a>> = Vec::new();
    let mut components: Vec<Spot<'a>> = Vec::new();
    assert(spot_views(source@) =~= Seq::empty());
    assert(spot_views(named@) =~= Seq::empty());
    assert(spot_views(components@) =~= Seq::empty());
    for i in 0..list.len()
        invariant
            views == spot_views(list@),
            spot_views(source@) == source_spots(views.take(i as int)),
            spot_views(named@) == named_spots(views.take(i as int)),
            spot_views(components@) == component_spots(views.take(i as int)),
    {
        proof {
            prefix_step(views, i as int);
        }
        let spot = spot_of(&list[i]);
        let ghost here = views[i as int];
        assert(here == Hotspot { target: spot.target@, entry: spot.entry@ });
        if spot.entry.line > 0 {
            if !is_same_line_in(&source, &spot) {
                let ghost before = spot_views(source@);
                source.push(spot);
                assert(spot_views(source@) =~= before.push(here));
            }
        } else if spot.entry.detail.as_str().is_empty() {
            let ghost before = spot_views(components@);
            components.push(spot);
            assert(spot_views(components@) =~= before.push(here));
        } else {
            let ghost before = spot_views(named@);
            named.push(spot);
            assert(spot_views(named@) =~= before.push(here));
        }
    }
    proof {
        prefix_all(views);
    }
    Sections { source, named, components }
}

/// How a part on a line of a source is shown.
pub open spec fn source_spot_text(s: Hotspot, single: bool) -> Seq<char> {
    (if single {
        ""@
    } else {
        s.target + ":"@
    }) + decimal(s.entry.line as nat) + ":"@ + decimal(s.entry.column as nat) + " "@
        + s.entry.duration + " "@ + s.entry.kind + (if s.entry.detail.len() == 0 {
        ""@
    } else {
        " "@ + shortened(one_line(s.entry.detail), 160)
    })
}

/// How a named part is shown.
pub open spec fn named_spot_text(s: Hotspot, all: bool) -> Seq<char> {
    s.entry.duration + " "@ + s.entry.kind + " "@ + shortened(
        one_line(s.entry.detail),
        if all {
            500
        } else {
            160
        },
    )
}

/// How a component is shown.
pub open spec fn component_text(s: Hotspot) -> Seq<char> {
    s.entry.duration + " "@ + s.entry.kind
}

/// The texts of the parts of a section.
pub open spec fn section_texts(list: Seq<Hotspot>, section: int, single: bool, all: bool) -> Seq<
    Seq<char>,
> {
    list.map_values(
        |s: Hotspot|
            if section == 0 {
                source_spot_text(s, single)
            } else if section == 1 {
                named_spot_text(s, all)
            } else {
                component_text(s)
            },
    )
}

fn spot_text(s: &Spot, section: u8, single: bool, all: bool) -> (r: String)
    ensures
        r@ == section_texts(
            seq![Hotspot { target: s.target@, entry: s.entry@ }],
            section as int,
            single,
            all,
        )[0],
{
    let e = s.entry;
    if section == 0 {
        let mut out = if single {
            own("")
        } else {
            cat2(s.target, ":")
        };
        push_str(&mut out, show(e.line).as_str());
        push_str(&mut out, ":");
        push_str(&mut out, show(e.column).as_str());
        push_str(&mut out, " ");
        push_str(&mut out, e.duration.as_str());
        push_str(&mut out, " ");
        push_str(&mut out, e.kind.as_str());
        if e.detail.as_str().is_empty() {
            push_str(&mut out, "");
        } else {
            let detail = truncate_line(single_line(e.detail.as_str()).as_str(), 160);
            push_str(&mut out, cat2(" ", detail.as_str()).as_str());
        }
        out
    } else if section == 1 {
        let limit: usize = if all {
            500
        } else {
            160
        };
        let mut out = cat3(e.duration.as_str(), " ", e.kind.as_str());
        push_str(&mut out, " ");
        push_str(
            &mut out,
            truncate_line(single_line(e.detail.as_str()).as_str(), limit).as_str(),
        );
        out
    } else {
        cat3(e.duration.as_str(), " ", e.kind.as_str())
    }
}

/// A section of parts, left out where there are none.
pub open spec fn spot_section(
    label: Seq<char>,
    list: Seq<Hotspot>,
    limit: int,
    section: int,
    single: bool,
    all: bool,
) -> Seq<char> {
    let shown = front(list, limit);
    if shown.len() == 0 {
        ""@
    } else {
        label + listed(section_texts(shown, section, single, all), "\n    "@)
    }
}

fn render_section(
    label: &str,
    list: &Vec<Spot>,
    limit: usize,
    section: u8,
    single: bool,
    all: bool,
) -> (r: String)
    ensures
        r@ == spot_section(
            label@,
            spot_views(list@),
            limit as int,
            section as int,
            single,
            all,
        ),
{
    let ghost shown = front(spot_views(list@), limit as int);
    assert(spot_views(list@).len() == list.len());
    let count: usize = if list.len() < limit {
        list.len()
    } else {
        limit
    };
    assert(shown.len() == count);
    if count == 0 {
        return own("");
    }
    let ghost wanted = section_texts(shown, section as int, single, all);
    let mut texts: Vec<String> = Vec::new();
    assert(strings(texts@) =~= wanted.take(0));
    for i in 0..count
        invariant
            count <= list.len(),
            shown == front(spot_views(list@), limit as int),
            shown.len() == count,
            wanted == section_texts(shown, section as int, single, all),
            strings(texts@) == wanted.take(i as int),
    {
        proof {
            prefix_step(wanted, i as int);
        }
        let text = spot_text(&list[i], section, single, all);
        assert(text@ == wanted[i as int]);
        let ghost before = strings(texts@);
        texts.push(text);
        assert(strings(texts@) =~= before.push(wanted[i as int]));
    }
    proof {
        prefix_all(wanted);
    }
    let mut out = own(label);
    push_list(&mut out, &texts, "\n    ");
    out
}

/// The times of one file on one line.
pub open spec fn file_line(f: FileProfileView, single: bool) -> Seq<char> {
    "\n  "@ + (if single && base_name(f.target) is Some {
        base_name(f.target)->0
    } else {
        f.target
    }) + " "@ + f.mode + " "@ + decimal(f.total_ms as nat) + "ms (deps "@ + decimal(
        f.dependencies_ms as nat,
    ) + "ms, cache "@ + decimal(f.cache_ms as nat) + "ms, setup "@ + decimal(f.setup_ms as nat)
        + "ms, Lean "@ + decimal(f.elaborate_ms as nat) + "ms"@ + (match f.reused_prefix_lines {
        Some(lines) => ", reused "@ + decimal(lines as nat) + " lines"@,
        None => ""@,
    }) + (if f.queue_ms > 0 {
        ", queue "@ + decimal(f.queue_ms as nat) + "ms"@
    } else {
        ""@
    }) + ")"@
}

fn render_file_line(f: &FileProfile, single: bool) -> (r: String)
    ensures
        r@ == file_line(f@, single),
{
    let target = if single {
        match file_name(f.target.as_str()) {
            Some(name) => name,
            None => f.target.as_str(),
        }
    } else {
        f.target.as_str()
    };
    let mut out = cat3("\n  ", target, " ");
    push_str(&mut out, f.mode.as_str());
    push_str(&mut out, " ");
    push_str(&mut out, show(f.total_ms).as_str());
    push_str(&mut out, "ms (deps ");
    push_str(&mut out, show(f.dependencies_ms).as_str());
    push_str(&mut out, "ms, cache ");
    push_str(&mut out, show(f.cache_ms).as_str());
    push_str(&mut out, "ms, setup ");
    push_str(&mut out, show(f.setup_ms).as_str());
    push_str(&mut out, "ms, Lean ");
    push_str(&mut out, show(f.elaborate_ms).as_str());
    push_str(&mut out, "ms");
    match f.reused_prefix_lines {
        Some(lines) => push_str(
            &mut out,
            cat3(", reused ", show(lines).as_str(), " lines").as_str(),
        ),
        None => push_str(&mut out, ""),
    }
    if f.queue_ms > 0 {
        push_str(&mut out, cat3(", queue ", show(f.queue_ms).as_str(), "ms").as_str());
    } else {
        push_str(&mut out, "");
    }
    push_str(&mut out, ")");
    out
}

/// The times of the first `n` files.
pub open spec fn file_lines(files: Seq<FileProfileView>, n: nat) -> Seq<char>
    decreases n,
{
    if n == 0 {
        Seq::empty()
    } else {
        file_lines(files, (n - 1) as nat) + file_line(files[n - 1], files.len() == 1)
    }
}

/// Some file was measured in detail.
pub open spec fn measured(files: Seq<FileProfileView>) -> bool {
    exists|i: int| 0 <= i < files.len() && (#[trigger] files[i]).mode == "profile"@
}

fn is_measured(files: &Vec<FileProfile>) -> (r: bool)
    ensures
        r == measured(file_profiles(files@)),
{
    for i in 0..files.len()
        invariant
            forall|j: int|
                0 <= j < i ==> (#[trigger] file_profiles(files@)[j]).mode != "profile"@,
    {
        assert(file_profiles(files@)[i as int] == files@[i as int]@);
        if same(files[i].mode.as_str(), "profile") {
            return true;
        }
    }
    false
}

/// The measured parts of a check as they are shown.
pub open spec fn hotspot_part(p: CheckProfileView, all: bool) -> Seq<char> {
    let spots = sorted_spots(all_spots(p.files));
    let single = p.files.len() == 1;
    let limit = if all {
        spots.len() as int
    } else {
        8
    };
    if spots.len() > 0 {
        spot_section("\n  source hotspots:"@, source_spots(spots), limit, 0, single, all)
            + spot_section(
            "\n  Lean hotspots:"@,
            named_spots(spots),
            if all {
                usize::MAX as int
            } else {
                6
            },
            1,
            single,
            all,
        ) + spot_section("\n  Lean components:"@, component_spots(spots), limit, 2, single, all)
    } else if measured(p.files) {
        "\n  hotspots: none captured"@
    } else {
        ""@
    }
}

/// The times of a check as they are shown.
pub open spec fn profile_text(p: CheckProfileView, all: bool) -> Seq<char> {
    "profile:\n  planning "@ + decimal(p.planning_ms as nat) + "ms"@ + (if p.files.len() > 32 {
        file_lines(p.files, 32) + "\n  +"@ + decimal((p.files.len() - 32) as nat) + " files"@
    } else {
        file_lines(p.files, p.files.len())
    }) + hotspot_part(p, all)
}

impl CheckProfile {
    /// Computes [`profile_text`].
    pub fn render(&self, all: bool) -> (r: String)
        ensures
            r@ == profile_text(self@, all),
    {
        let mut out = cat3("profile:\n  planning ", show(self.planning_ms).as_str(), "ms");
        assert(file_profiles(self.files@).len() == self.files.len());
        let single = self.files.len() == 1;
        let count: usize = if self.files.len() > 32 {
            32
        } else {
            self.files.len()
        };
        let mut body = String::new();
        for i in 0..count
            invariant
                count <= self.files.len(),
                single == (self@.files.len() == 1),
                self@.files.len() == self.files.len(),
                body@ == file_lines(self@.files, i as nat),
        {
            assert(self@.files[i as int] == self.files@[i as int]@);
            push_str(&mut body, render_file_line(&self.files[i], single).as_str());
        }
        if self.files.len() > 32 {
            push_str(&mut body, "\n  +");
            push_str(&mut body, show_size(self.files.len() - 32).as_str());
            push_str(&mut body, " files");
        }
        push_str(&mut out, body.as_str());
        let spots = sort_spots(collect_spots(&self.files));
        assert(spot_views(spots@).len() == spots.len());
        let part = if spots.len() > 0 {
            let limit: usize = if all {
                spots.len()
            } else {
                8
            };
            let named_limit: usize = if all {
                usize::MAX
            } else {
                6
            };
            let sections = divide_spots(&spots);
            let mut text = render_section(
                "\n  source hotspots:",
                &sections.source,
                limit,
                0,
                single,
                all,
            );
            push_str(
                &mut text,
                render_section(
                    "\n  Lean hotspots:",
                    &sections.named,
                    named_limit,
                    1,
                    single,
                    all,
                ).as_str(),
            );
            push_str(
                &mut text,
                render_section(
                    "\n  Lean components:",
                    &sections.components,
                    limit,
                    2,
                    single,
                    all,
                ).as_str(),
            );
            text
        } else if is_measured(&self.files) {
            own("\n  hotspots: none captured")
        } else {
            own("")
        };
        push_str(&mut out, part.as_str());
        out
    }
}

/// A finished check.
#[derive(Debug)]
pub struct CheckRun {
    pub reference: String,
    pub workspace_ref: String,
    pub status: String,
    pub duration_ms: u64,
    pub files: Vec<String>,
    pub failed: Option<String>,
    pub not_checked: Vec<String>,
    pub diagnostics: Vec<Diagnostic>,
    pub warnings: Vec<Diagnostic>,
    pub suggestions: Vec<Diagnostic>,
    pub linters: Vec<Diagnostic>,
    pub profile: Option<CheckProfile>,
}

/// The contents of a [`CheckRun`].
pub struct CheckRunView {
    pub reference: Seq<char>,
    pub workspace_ref: Seq<char>,
    pub status: Seq<char>,
    pub duration_ms: u64,
    pub files: Seq<Seq<char>>,
    pub failed: Option<Seq<char>>,
    pub not_checked: Seq<Seq<char>>,
    pub diagnostics: Seq<DiagnosticView>,
    pub warnings: Seq<DiagnosticView>,
    pub suggestions: Seq<DiagnosticView>,
    pub linters: Seq<DiagnosticView>,
    pub profile: Option<CheckProfileView>,
}

/// The contents of optional times.
pub open spec fn opt_profile(o: Option<CheckProfile>) -> Option<CheckProfileView> {
    match o {
        Some(p) => Some(p@),
        None => None,
    }
}

impl View for CheckRun {
    type V = CheckRunView;

    open spec fn view(&self) -> CheckRunView {
        CheckRunView {
            reference: self.reference@,
            workspace_ref: self.workspace_ref@,
            status: self.status@,
            duration_ms: self.duration_ms,
            files: strings(self.files@),
            failed: opt_string(self.failed),
            not_checked: strings(self.not_checked@),
            diagnostics: diagnostic_views(self.diagnostics@),
            warnings: diagnostic_views(self.warnings@),
            suggestions: diagnostic_views(self.suggestions@),
            linters: diagnostic_views(self.linters@),
            profile: opt_profile(self.profile),
        }
    }
}

/// A list under a label, left out where it is empty.
pub open spec fn list_part(label: Seq<char>, list: Seq<Seq<char>>) -> Seq<char> {
    if list.len() == 0 {
        ""@
    } else {
        label + listed(list, "\n  "@)
    }
}

fn render_list_part(label: &str, list: &Vec<String>) -> (r: String)
    ensures
        r@ == list_part(label@, strings(list@)),
{
    assert(strings(list@).len() == list.len());
    if list.len() == 0 {
        own("")
    } else {
        let mut out = own(label);
        push_list(&mut out, list, "\n  ");
        out
    }
}

/// A finished check as it is shown.
pub open spec fn check_display(run: CheckRunView, all: bool) -> Seq<char> {
    run.reference + " "@ + run.status + " "@ + decimal(run.duration_ms as nat) + "ms"@
        + "\nworkspace: "@ + run.workspace_ref + list_part("\nfiles:"@, run.files) + (
    match run.failed {
        Some(failed) => "\nfailed: "@ + failed,
        None => ""@,
    }) + (if all {
        list_part("\nnot checked:"@, run.not_checked)
    } else {
        ""@
    }) + diagnostic_section("diagnostics"@, run.diagnostics, None, 120) + diagnostic_section(
        "warnings"@,
        run.warnings,
        Some(8),
        30,
    ) + diagnostic_section("suggestions"@, run.suggestions, Some(8), 30) + (if all {
        diagnostic_section("linters"@, run.linters, Some(8), 30)
    } else if run.linters.len() > 0 {
        "\nlinters: "@ + decimal(run.linters.len())
    } else {
        ""@
    }) + (match run.profile {
        Some(profile) => "\n"@ + profile_text(profile, all),
        None => ""@,
    })
}

/// Computes [`check_display`].
pub fn render_check_run(run: &CheckRun, all: bool) -> (r: String)
    ensures
        r@ == check_display(run@, all),
{
    let mut out = cat3(run.reference.as_str(), " ", run.status.as_str());
    push_str(&mut out, " ");
    push_str(&mut out, show(run.duration_ms).as_str());
    push_str(&mut out, "ms");
    push_str(&mut out, "\nworkspace: ");
    push_str(&mut out, run.workspace_ref.as_str());
    push_str(&mut out, render_list_part("\nfiles:", &run.files).as_str());
    match &run.failed {
        Some(failed) => push_str(&mut out, cat2("\nfailed: ", failed.as_str()).as_str()),
        None => push_str(&mut out, ""),
    }
    if all {
        push_str(&mut out, render_list_part("\nnot checked:", &run.not_checked).as_str());
    } else {
        push_str(&mut out, "");
    }
    append_diagnostics(&mut out, "diagnostics", &run.diagnostics, None, 120);
    append_diagnostics(&mut out, "warnings", &run.warnings, Some(8), 30);
    append_diagnostics(&mut out, "suggestions", &run.suggestions, Some(8), 30);
    assert(diagnostic_views(run.linters@).len() == run.linters.len());
    if all {
        append_diagnostics(&mut out, "linters", &run.linters, Some(8), 30);
    } else if run.linters.len() > 0 {
        push_str(&mut out, cat2("\nlinters: ", show_size(run.linters.len()).as_str()).as_str());
    } else {
        push_str(&mut out, "");
    }
    match &run.profile {
        Some(profile) => push_str(&mut out, cat2("\n", profile.render(all).as_str()).as_str()),
        None => push_str(&mut out, ""),
    }
    out
}

} // verus!
