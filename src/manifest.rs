use vstd::prelude::*;
use crate::keyed::{find_slot, has_key, keys_sorted, lemma_insert_at, lemma_replace_at, represents, table_of};
use crate::mime_type::{is_content_mime, is_content_mime_type, is_html_mime, is_html_mime_type};
use crate::text::{clone_strings, str_eq};
use vstd::string::StringExecFns;

verus! {

pub type ResourceIdentifier = String;

pub type MimeType = String;

/// One node of a table of contents.
#[derive(Debug)]
pub struct NavigationPoint {
    /// the title of this navpoint
    pub label: String,
    /// the resource path, possibly with a fragment
    pub content: String,
    /// nested navpoints
    pub children: Vec<NavigationPoint>,
    /// the order in the toc
    pub play_order: Option<usize>,
}

/// Where a resource lives in the container, and what it holds.
#[derive(Debug, Clone)]
pub struct ResourceInfo {
    pub file_path: String,
    pub mime_type: MimeType,
}

impl View for ResourceInfo {
    type V = (Seq<char>, Seq<char>);

    open spec fn view(&self) -> (Seq<char>, Seq<char>) {
        (self.file_path@, self.mime_type@)
    }
}

impl ResourceInfo {
    /// A copy of this record.
    pub fn copy(&self) -> (r: ResourceInfo)
        ensures
            r == *self,
    {
        ResourceInfo { file_path: self.file_path.clone(), mime_type: self.mime_type.clone() }
    }
}

/// The serializable summary of a book's structure.
#[derive(Debug)]
pub struct Manifest {
    /// spine ids, in reading order
    pub spine: Vec<ResourceIdentifier>,
    /// the root navpoints of the table of contents
    pub toc: Vec<NavigationPoint>,
    /// resource id -> (path, mime), sorted by id, ids distinct
    pub resources: Vec<(ResourceIdentifier, ResourceInfo)>,
    /// metadata key -> values in document order, sorted by key, keys distinct
    pub metadata: Vec<(String, Vec<String>)>,
    /// custom css list to inject in every xhtml file
    pub extra_css: Vec<String>,
    /// unique identifier
    pub unique_identifier: Option<String>,
    /// the id of the cover, if any
    pub cover_id: Option<String>,
}

/// A table-of-contents node as the container parser yields it.
#[derive(Debug)]
pub struct RawNavPoint {
    pub label: String,
    pub content: String,
    pub children: Vec<RawNavPoint>,
    pub play_order: Option<usize>,
}

/// What a parsed container exposes to the projection.
#[derive(Debug)]
pub struct Container {
    /// resource id -> (path, mime); a later entry for an id overrides an earlier one
    pub resources: Vec<(ResourceIdentifier, ResourceInfo)>,
    /// spine ids, in reading order
    pub spine: Vec<ResourceIdentifier>,
    /// the root nodes of the table of contents
    pub toc: Vec<RawNavPoint>,
    /// metadata elements as (key, value), in document order; keys may repeat
    pub metadata: Vec<(String, String)>,
    pub extra_css: Vec<String>,
    pub unique_identifier: Option<String>,
    pub cover_id: Option<String>,
}

/// `np` has the shape of `raw`, with the same labels, contents and play orders throughout.
pub open spec fn projects_to(raw: RawNavPoint, np: NavigationPoint) -> bool
    decreases raw,
{
    &&& np.label@ == raw.label@
    &&& np.content@ == raw.content@
    &&& np.play_order == raw.play_order
    &&& np.children.len() == raw.children.len()
    &&& forall|i: int|
        0 <= i < raw.children.len() ==> projects_to(#[trigger] raw.children[i], np.children[i])
}

/// Metadata values grouped by key, each group in the order the elements came.
pub open spec fn grouped(s: Seq<(String, String)>) -> Map<Seq<char>, Seq<String>>
    decreases s.len(),
{
    if s.len() == 0 {
        Map::empty()
    } else {
        let m = grouped(s.drop_last());
        let k = s.last().0@;
        let prev = if m.contains_key(k) {
            m[k]
        } else {
            Seq::empty()
        };
        m.insert(k, prev.push(s.last().1))
    }
}

impl Container {
    /// The resource table as a map from id to (path, mime).
    pub open spec fn resource_table(&self) -> Map<Seq<char>, (Seq<char>, Seq<char>)> {
        table_of(self.resources@)
    }

    /// Every spine id, and the cover id if any, names a resource.
    pub open spec fn references_resolve(&self) -> bool {
        &&& forall|i: int|
            0 <= i < self.spine.len() ==> self.resource_table().contains_key(
                #[trigger] self.spine[i]@,
            )
        &&& self.cover_id matches Some(c) ==> self.resource_table().contains_key(c@)
    }
}

impl Manifest {
    /// Resource ids and metadata keys are distinct and sorted.
    pub open spec fn wf(&self) -> bool {
        keys_sorted(self.resources@) && keys_sorted(self.metadata@)
    }

    /// Every spine id, and the cover id if any, is a key of `resources`.
    pub open spec fn references_resolve(&self) -> bool {
        &&& forall|i: int|
            0 <= i < self.spine.len() ==> has_key(self.resources@, #[trigger] self.spine[i]@)
        &&& self.cover_id matches Some(c) ==> has_key(self.resources@, c@)
    }
}

fn clone_opt(o: &Option<String>) -> (r: Option<String>)
    ensures
        r == *o,
{
    match o {
        Some(s) => Some(s.clone()),
        None => None,
    }
}

impl NavigationPoint {
    /// Converts a parsed navigation node, and recursively its children, keeping their order.
    pub fn from_raw(nav_point: &RawNavPoint) -> (r: NavigationPoint)
        ensures
            projects_to(*nav_point, r),
        decreases nav_point,
    {
        let mut children: Vec<NavigationPoint> = Vec::new();
        let mut i: usize = 0;
        while i < nav_point.children.len()
            invariant
                i <= nav_point.children.len(),
                children.len() == i,
                forall|j: int|
                    0 <= j < i ==> projects_to(#[trigger] nav_point.children[j], children[j]),
            decreases nav_point.children.len() - i,
        {
            proof {
                assert(decreases_to!(*nav_point => nav_point.children[i as int]));
            }
            let c = NavigationPoint::from_raw(&nav_point.children[i]);
            children.push(c);
            i = i + 1;
        }
        NavigationPoint {
            label: nav_point.label.clone(),
            content: nav_point.content.clone(),
            children,
            play_order: nav_point.play_order,
        }
    }
}

/// The resource table as a list sorted by id, later entries for an id overriding earlier ones.
pub fn sorted_resources(entries: &Vec<(ResourceIdentifier, ResourceInfo)>) -> (r: Vec<
    (ResourceIdentifier, ResourceInfo),
>)
    ensures
        represents(r@, table_of(entries@)),
{
    let mut out: Vec<(ResourceIdentifier, ResourceInfo)> = Vec::new();
    let mut i: usize = 0;
    while i < entries.len()
        invariant
            i <= entries.len(),
            represents(out@, table_of(entries@.take(i as int))),
        decreases entries.len() - i,
    {
        let ghost m = table_of(entries@.take(i as int));
        let ghost before = out@;
        let (p, found) = find_slot(&out, entries[i].0.as_str());
        let e = (entries[i].0.clone(), entries[i].1.copy());
        if found {
            out[p] = e;
            proof {
                lemma_replace_at(before, out@, p as int, e, m);
            }
        } else {
            out.insert(p, e);
            proof {
                lemma_insert_at(before, out@, p as int, e, m);
            }
        }
        proof {
            assert(entries@.take(i + 1).drop_last() =~= entries@.take(i as int));
        }
        i = i + 1;
    }
    proof {
        assert(entries@.take(i as int) =~= entries@);
    }
    out
}

/// Metadata elements grouped by key into a list sorted by key.
pub fn group_metadata(items: &Vec<(String, String)>) -> (r: Vec<(String, Vec<String>)>)
    ensures
        represents(r@, grouped(items@)),
{
    let mut out: Vec<(String, Vec<String>)> = Vec::new();
    let mut i: usize = 0;
    while i < items.len()
        invariant
            i <= items.len(),
            represents(out@, grouped(items@.take(i as int))),
        decreases items.len() - i,
    {
        let ghost m = grouped(items@.take(i as int));
        let ghost before = out@;
        proof {
            assert(items@.take(i + 1).drop_last() =~= items@.take(i as int));
        }
        let (p, found) = find_slot(&out, items[i].0.as_str());
        if found {
            let mut values = clone_strings(&out[p].1);
            values.push(items[i].1.clone());
            let e = (items[i].0.clone(), values);
            out[p] = e;
            proof {
                lemma_replace_at(before, out@, p as int, e, m);
            }
        } else {
            let e = (items[i].0.clone(), vec![items[i].1.clone()]);
            proof {
                assert(e.1@ =~= Seq::<String>::empty().push(items@[i as int].1));
                assert(!has_key(before, items@[i as int].0@));
            }
            out.insert(p, e);
            proof {
                lemma_insert_at(before, out@, p as int, e, m);
            }
        }
        i = i + 1;
    }
    proof {
        assert(items@.take(i as int) =~= items@);
    }
    out
}

fn project_toc(toc: &Vec<RawNavPoint>) -> (r: Vec<NavigationPoint>)
    ensures
        r.len() == toc.len(),
        forall|i: int| 0 <= i < toc.len() ==> projects_to(#[trigger] toc[i], r[i]),
{
    let mut out: Vec<NavigationPoint> = Vec::new();
    let mut i: usize = 0;
    while i < toc.len()
        invariant
            i <= toc.len(),
            out.len() == i,
            forall|j: int| 0 <= j < i ==> projects_to(#[trigger] toc[j], out[j]),
        decreases toc.len() - i,
    {
        out.push(NavigationPoint::from_raw(&toc[i]));
        i = i + 1;
    }
    out
}

impl Manifest {
    /// Projects a parsed container into a manifest: the navigation tree keeps its shape,
    /// resources and metadata become sorted keyed lists, the rest is copied as is.
    pub fn provision_for(container: &Container) -> (r: Manifest)
        ensures
            r.spine@ == container.spine@,
            r.toc.len() == container.toc.len(),
            forall|i: int|
                0 <= i < container.toc.len() ==> projects_to(#[trigger] container.toc[i], r.toc[i]),
            represents(r.resources@, container.resource_table()),
            represents(r.metadata@, grouped(container.metadata@)),
            r.extra_css@ == container.extra_css@,
            r.unique_identifier == container.unique_identifier,
            r.cover_id == container.cover_id,
            r.wf(),
            container.references_resolve() ==> r.references_resolve(),
    {
        let r = Manifest {
            spine: clone_strings(&container.spine),
            toc: project_toc(&container.toc),
            resources: sorted_resources(&container.resources),
            metadata: group_metadata(&container.metadata),
            extra_css: clone_strings(&container.extra_css),
            unique_identifier: clone_opt(&container.unique_identifier),
            cover_id: clone_opt(&container.cover_id),
        };
        proof {
            if container.references_resolve() {
                assert forall|i: int| 0 <= i < r.spine.len() implies has_key(
                    r.resources@,
                    #[trigger] r.spine[i]@,
                ) by {
                    assert(container.resource_table().contains_key(container.spine[i]@));
                }
                if r.cover_id is Some {
                    assert(container.resource_table().contains_key(r.cover_id->Some_0@));
                }
            }
        }
        r
    }
}

/// `p` is one of the resources' file paths.
pub open spec fn is_resource_path(res: Seq<(ResourceIdentifier, ResourceInfo)>, p: Seq<char>) -> bool {
    exists|i: int| 0 <= i < res.len() && #[trigger] res[i].1.file_path@ == p
}

/// Whether some string of `v` equals `s`.
pub fn contains_str(v: &Vec<String>, s: &str) -> (r: bool)
    ensures
        r == listed(v@, s@),
{
    let mut i: usize = 0;
    while i < v.len()
        invariant
            i <= v.len(),
            forall|k: int| 0 <= k < i ==> #[trigger] v[k]@ != s@,
        decreases v.len() - i,
    {
        if str_eq(v[i].as_str(), s) {
            return true;
        }
        i = i + 1;
    }
    false
}

/// Some string of `v` has the characters `p`.
pub open spec fn listed(v: Seq<String>, p: Seq<char>) -> bool {
    exists|k: int| 0 <= k < v.len() && #[trigger] v[k]@ == p
}

impl Manifest {
    /// The distinct file paths of all resources, each listed once.
    pub fn all_file_paths(&self) -> (r: Vec<String>)
        ensures
            forall|i: int, j: int| 0 <= i < j < r.len() ==> r[i]@ != r[j]@,
            forall|p: Seq<char>| listed(r@, p) <==> is_resource_path(self.resources@, p),
    {
        let mut out: Vec<String> = Vec::new();
        let mut i: usize = 0;
        while i < self.resources.len()
            invariant
                i <= self.resources.len(),
                forall|a: int, b: int| 0 <= a < b < out.len() ==> out[a]@ != out[b]@,
                forall|k: int|
                    0 <= k < out.len() ==> is_resource_path(self.resources@, #[trigger] out[k]@),
                forall|j: int|
                    0 <= j < i ==> listed(out@, #[trigger] self.resources@[j].1.file_path@),
            decreases self.resources.len() - i,
        {
            let path = &self.resources[i].1.file_path;
            if !contains_str(&out, path.as_str()) {
                let ghost before = out@;
                out.push(path.clone());
                proof {
                    assert(out@[out.len() - 1]@ == self.resources@[i as int].1.file_path@);
                    assert forall|j: int| 0 <= j <= i implies listed(
                        out@,
                        #[trigger] self.resources@[j].1.file_path@,
                    ) by {
                        if j < i {
                            let k = choose|k: int|
                                0 <= k < before.len() && #[trigger] before[k]@
                                    == self.resources@[j].1.file_path@;
                            assert(out@[k] == before[k]);
                        } else {
                            assert(out@[out.len() - 1]@ == self.resources@[j].1.file_path@);
                        }
                    }
                }
            }
            i = i + 1;
        }
        proof {
            assert forall|p: Seq<char>| listed(out@, p) <==> is_resource_path(self.resources@, p) by {
                if is_resource_path(self.resources@, p) {
                    let j = choose|j: int|
                        0 <= j < self.resources.len() && #[trigger] self.resources@[j].1.file_path@
                            == p;
                    assert(listed(out@, self.resources@[j].1.file_path@));
                }
                if listed(out@, p) {
                    let k = choose|k: int| 0 <= k < out.len() && #[trigger] out@[k]@ == p;
                    assert(is_resource_path(self.resources@, out[k]@));
                }
            }
        }
        out
    }
}

/// Index of the last occurrence of `c` among the first `n` characters of `s`, or -1.
pub open spec fn last_index_of(s: Seq<char>, c: char, n: int) -> int
    decreases n,
{
    if n <= 0 {
        -1
    } else if s[n - 1] == c {
        n - 1
    } else {
        last_index_of(s, c, n - 1)
    }
}

/// A path is relative when it does not begin with the root separator.
pub open spec fn is_relative(p: Seq<char>) -> bool {
    !(p.len() > 0 && p[0] == '/')
}

/// Where the stem of the path's last component ends: at its last dot, unless that dot
/// opens the component or there is none.
pub open spec fn stem_end(p: Seq<char>) -> int {
    let name_start = last_index_of(p, '/', p.len() as int) + 1;
    let dot = last_index_of(p, '.', p.len() as int);
    if dot > name_start {
        dot
    } else {
        p.len() as int
    }
}

/// The plain-text sibling of a path: its extension replaced by `txt`, or `.txt` appended.
pub open spec fn text_sibling(p: Seq<char>) -> Seq<char> {
    p.subrange(0, stem_end(p)) + ".txt"@
}

/// The path's last component has the extension `toml`.
pub open spec fn has_toml_extension(p: Seq<char>) -> bool {
    stem_end(p) < p.len() && p.subrange(stem_end(p) + 1, p.len() as int) == "toml"@
}

/// Whether `path` names a file with the manifest's extension, `toml`.
pub fn is_manifest_path(path: &str) -> (r: bool)
    ensures
        r == has_toml_extension(path@),
{
    let n = path.unicode_len();
    let end = stem_end_of(path);
    if end >= n {
        return false;
    }
    str_eq(path.substring_char(end + 1, n), "toml")
}

/// Whether `path` is relative.
pub fn path_is_relative(path: &str) -> (r: bool)
    ensures
        r == is_relative(path@),
{
    !(path.unicode_len() > 0 && path.get_char(0) == '/')
}

/// Where the stem of `path`'s last component ends.
fn stem_end_of(path: &str) -> (r: usize)
    ensures
        r == stem_end(path@),
        r <= path@.len(),
{
    let n = path.unicode_len();
    // one past the last '/' and one past the last '.', or 0 where there is none
    let mut name_start: usize = 0;
    let mut dot_end: usize = 0;
    let mut i: usize = 0;
    while i < n
        invariant
            n == path@.len(),
            i <= n,
            name_start <= i,
            dot_end <= i,
            name_start == last_index_of(path@, '/', i as int) + 1,
            dot_end == last_index_of(path@, '.', i as int) + 1,
        decreases n - i,
    {
        let c = path.get_char(i);
        if c == '/' {
            name_start = i + 1;
        } else if c == '.' {
            dot_end = i + 1;
        }
        i = i + 1;
    }
    if dot_end > name_start && dot_end - name_start > 1 {
        dot_end - 1
    } else {
        n
    }
}

/// The path of the plain-text sibling of `path`.
pub fn text_sibling_path(path: &str) -> (r: String)
    ensures
        r@ == text_sibling(path@),
{
    let end = stem_end_of(path);
    let stem = path.substring_char(0, end).to_owned();
    stem.concat(".txt")
}

/// One resource to write out, and where its plain-text sibling goes if one is wanted.
#[derive(Debug)]
pub struct ExportStep {
    pub id: ResourceIdentifier,
    pub file_path: String,
    pub text_path: Option<String>,
}

/// Why an export cannot go ahead.
#[derive(Debug)]
pub enum ExportError {
    /// the resource's path begins with the root separator
    PathNotRelative { id: ResourceIdentifier, path: String },
    /// the resource's plain-text sibling would overwrite another resource
    TextPathCollision { id: ResourceIdentifier, path: String },
}

pub struct StepView {
    pub id: Seq<char>,
    pub file_path: Seq<char>,
    pub text_path: Option<Seq<char>>,
}

pub enum ErrorView {
    PathNotRelative(Seq<char>, Seq<char>),
    TextPathCollision(Seq<char>, Seq<char>),
}

impl View for ExportStep {
    type V = StepView;

    open spec fn view(&self) -> StepView {
        StepView {
            id: self.id@,
            file_path: self.file_path@,
            text_path: match self.text_path {
                Some(t) => Some(t@),
                None => None,
            },
        }
    }
}

impl View for ExportError {
    type V = ErrorView;

    open spec fn view(&self) -> ErrorView {
        match self {
            ExportError::PathNotRelative { id, path } => ErrorView::PathNotRelative(id@, path@),
            ExportError::TextPathCollision { id, path } => ErrorView::TextPathCollision(id@, path@),
        }
    }
}

/// What exporting entry `e` of `res` amounts to: nothing for a type outside the content set,
/// an error for an absolute path or a colliding text sibling, else one step.
pub open spec fn step_for(
    res: Seq<(ResourceIdentifier, ResourceInfo)>,
    e: (ResourceIdentifier, ResourceInfo),
    html2text: bool,
) -> Option<Result<StepView, ErrorView>> {
    let id = e.0@;
    let path = e.1.file_path@;
    let mime = e.1.mime_type@;
    if !is_content_mime(mime) {
        None
    } else if !is_relative(path) {
        Some(Err(ErrorView::PathNotRelative(id, path)))
    } else if html2text && is_html_mime(mime) {
        let t = text_sibling(path);
        if is_resource_path(res, t) {
            Some(Err(ErrorView::TextPathCollision(id, t)))
        } else {
            Some(Ok(StepView { id, file_path: path, text_path: Some(t) }))
        }
    } else {
        Some(Ok(StepView { id, file_path: path, text_path: None }))
    }
}

/// The steps for the first `n` resources, or the first error among them.
pub open spec fn plan_of(res: Seq<(ResourceIdentifier, ResourceInfo)>, html2text: bool, n: int) -> Result<
    Seq<StepView>,
    ErrorView,
>
    decreases n,
{
    if n <= 0 {
        Ok(Seq::empty())
    } else {
        match plan_of(res, html2text, n - 1) {
            Err(e) => Err(e),
            Ok(steps) => match step_for(res, res[n - 1], html2text) {
                None => Ok(steps),
                Some(Err(e)) => Err(e),
                Some(Ok(st)) => Ok(steps.push(st)),
            },
        }
    }
}

/// Once the plan has failed, it stays failed with the same error.
pub proof fn lemma_plan_error_persists(
    res: Seq<(ResourceIdentifier, ResourceInfo)>,
    html2text: bool,
    k: int,
    n: int,
)
    requires
        0 <= k <= n,
        plan_of(res, html2text, k) is Err,
    ensures
        plan_of(res, html2text, n) == plan_of(res, html2text, k),
    decreases n - k,
{
    if k < n {
        lemma_plan_error_persists(res, html2text, k, n - 1);
    }
}

/// An exported content resource whose path is absolute makes the export fail.
pub proof fn lemma_absolute_path_fails(
    res: Seq<(ResourceIdentifier, ResourceInfo)>,
    html2text: bool,
    i: int,
)
    requires
        0 <= i < res.len(),
        is_content_mime(res[i].1.mime_type@),
        !is_relative(res[i].1.file_path@),
    ensures
        plan_of(res, html2text, res.len() as int) is Err,
{
    assert(plan_of(res, html2text, i + 1) is Err);
    lemma_plan_error_persists(res, html2text, i + 1, res.len() as int);
}

/// With text conversion on, an HTML resource whose text sibling is the path of a resource
/// makes the export fail rather than overwrite it.
pub proof fn lemma_text_collision_fails(res: Seq<(ResourceIdentifier, ResourceInfo)>, i: int)
    requires
        0 <= i < res.len(),
        is_content_mime(res[i].1.mime_type@),
        is_html_mime(res[i].1.mime_type@),
        is_resource_path(res, text_sibling(res[i].1.file_path@)),
    ensures
        plan_of(res, true, res.len() as int) is Err,
{
    assert(plan_of(res, true, i + 1) is Err);
    lemma_plan_error_persists(res, true, i + 1, res.len() as int);
}

impl Manifest {
    /// Decides what an export writes: each content resource in order, with a plain-text
    /// sibling for HTML when `html2text` is set; fails on the first absolute path or
    /// text sibling that would overwrite a resource.
    pub fn plan_export(&self, html2text: bool) -> (r: Result<Vec<ExportStep>, ExportError>)
        ensures
            match r {
                Ok(steps) => plan_of(self.resources@, html2text, self.resources.len() as int)
                    == Ok::<Seq<StepView>, ErrorView>(steps@.map_values(|s: ExportStep| s@)),
                Err(e) => plan_of(self.resources@, html2text, self.resources.len() as int) == Err::<
                    Seq<StepView>,
                    ErrorView,
                >(e@),
            },
    {
        let all_paths = self.all_file_paths();
        let mut steps: Vec<ExportStep> = Vec::new();
        let mut i: usize = 0;
        proof {
            assert(steps@.map_values(|s: ExportStep| s@) =~= Seq::<StepView>::empty());
        }
        while i < self.resources.len()
            invariant
                i <= self.resources.len(),
                forall|p: Seq<char>| listed(all_paths@, p) <==> is_resource_path(self.resources@, p),
                plan_of(self.resources@, html2text, i as int) == Ok::<Seq<StepView>, ErrorView>(
                    steps@.map_values(|s: ExportStep| s@),
                ),
            decreases self.resources.len() - i,
        {
            let id = &self.resources[i].0;
            let info = &self.resources[i].1;
            if is_content_mime_type(info.mime_type.as_str()) {
                if !path_is_relative(info.file_path.as_str()) {
                    let e = ExportError::PathNotRelative {
                        id: id.clone(),
                        path: info.file_path.clone(),
                    };
                    proof {
                        lemma_plan_error_persists(
                            self.resources@,
                            html2text,
                            i + 1,
                            self.resources.len() as int,
                        );
                    }
                    return Err(e);
                }
                let mut text_path: Option<String> = None;
                if html2text && is_html_mime_type(info.mime_type.as_str()) {
                    let t = text_sibling_path(info.file_path.as_str());
                    if contains_str(&all_paths, t.as_str()) {
                        proof {
                            lemma_plan_error_persists(
                                self.resources@,
                                html2text,
                                i + 1,
                                self.resources.len() as int,
                            );
                        }
                        return Err(ExportError::TextPathCollision { id: id.clone(), path: t });
                    }
                    text_path = Some(t);
                }
                let ghost before = steps@;
                steps.push(
                    ExportStep { id: id.clone(), file_path: info.file_path.clone(), text_path },
                );
                proof {
                    assert(steps@.map_values(|s: ExportStep| s@) =~= before.map_values(
                        |s: ExportStep| s@,
                    ).push(steps@[before.len() as int]@));
                }
            }
            i = i + 1;
        }
        Ok(steps)
    }
}

impl Manifest {
    /// Whether some resource has the id `id`.
    pub fn has_resource(&self, id: &str) -> (r: bool)
        ensures
            r == has_key(self.resources@, id@),
    {
        let mut i: usize = 0;
        while i < self.resources.len()
            invariant
                i <= self.resources.len(),
                forall|k: int| 0 <= k < i ==> #[trigger] self.resources@[k].0@ != id@,
            decreases self.resources.len() - i,
        {
            if str_eq(self.resources[i].0.as_str(), id) {
                return true;
            }
            i = i + 1;
        }
        false
    }

    /// Whether every spine id, and the cover id if any, names a resource.
    pub fn check_references(&self) -> (r: bool)
        ensures
            r == self.references_resolve(),
    {
        let mut i: usize = 0;
        while i < self.spine.len()
            invariant
                i <= self.spine.len(),
                forall|k: int| 0 <= k < i ==> has_key(self.resources@, #[trigger] self.spine@[k]@),
            decreases self.spine.len() - i,
        {
            if !self.has_resource(self.spine[i].as_str()) {
                return false;
            }
            i = i + 1;
        }
        match &self.cover_id {
            Some(c) => self.has_resource(c.as_str()),
            None => true,
        }
    }
}

} // verus!
