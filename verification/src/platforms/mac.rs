//! Enumeration of application bundles.

use crate::common::{app_views, App, AppView, ProcessOutput};
use crate::disk::Disk;
use crate::text::texts;
use crate::utils::mac::{
    app_at, candidates, gathered_lines, run_mdfind_to_get_app_list, MacAppPath,
    MacSystemProfilterAppInfo, SearchError,
};
use vstd::prelude::*;

verus! {

/// The records of the first `upto` of `paths`, in order; a path that holds no
/// application adds none.
pub open spec fn bundle_apps(paths: Seq<Seq<char>>, disk: Disk, upto: int) -> Seq<AppView>
    decreases upto,
{
    if upto <= 0 {
        Seq::empty()
    } else {
        let before = bundle_apps(paths, disk, upto - 1);
        match app_at(paths[upto - 1], disk) {
            Some(app) => before.push(app),
            None => before,
        }
    }
}

/// What an enumeration returns for the outputs of the metadata search.
pub open spec fn enumerated(outputs: Seq<(ProcessOutput, ProcessOutput)>, disk: Disk) -> Result<
    Seq<AppView>,
    SearchError,
> {
    match candidates(gathered_lines(outputs, outputs.len() as int)) {
        Err(e) => Err(e),
        Ok(paths) => Ok(bundle_apps(paths, disk, paths.len() as int)),
    }
}

/// Whether `out` is the result `wanted`.
pub open spec fn is_enumeration(out: Result<Vec<App>, SearchError>, wanted: Result<
    Seq<AppView>,
    SearchError,
>) -> bool {
    match (out, wanted) {
        (Ok(apps), Ok(views)) => app_views(apps@) == views,
        (Err(e), Err(f)) => e == f,
        _ => false,
    }
}

/// The applications among the candidates of a metadata search: one record for
/// each candidate path that holds an application on `disk`.
pub fn get_all_apps_mdfind(
    outputs: &Vec<(ProcessOutput, ProcessOutput)>,
    disk: &Disk,
) -> (out: Result<
    Vec<App>,
    SearchError,
>)
    ensures
        is_enumeration(out, enumerated(outputs@, *disk)),
{
    let apps_list = match run_mdfind_to_get_app_list(outputs) {
        Ok(list) => list,
        Err(e) => {
            return Err(e);
        },
    };
    let mut apps: Vec<App> = Vec::new();
    let mut i: usize = 0;
    assert(app_views(apps@) =~= bundle_apps(texts(apps_list@), *disk, 0));
    while i < apps_list.len()
        invariant
            i <= apps_list.len(),
            app_views(apps@) == bundle_apps(texts(apps_list@), *disk, i as int),
        decreases apps_list.len() - i,
    {
        let ghost before = app_views(apps@);
        if let Some(app) = MacAppPath::new(apps_list[i].clone()).to_app(disk) {
            apps.push(app);
            assert(app_views(apps@) =~= before.push(app@));
        }
        i += 1;
    }
    Ok(apps)
}

/// The directories that are searched when the caller names none: none.
pub fn get_default_search_paths() -> (out: Vec<String>)
    ensures
        out@.len() == 0,
{
    Vec::new()
}

/// The applications of the platform; see `get_all_apps_mdfind`.
pub fn get_all_apps(outputs: &Vec<(ProcessOutput, ProcessOutput)>, disk: &Disk) -> (out: Result<
    Vec<App>,
    SearchError,
>)
    ensures
        is_enumeration(out, enumerated(outputs@, *disk)),
{
    get_all_apps_mdfind(outputs, disk)
}

/// The record of the bundle that the system profiler reports.
pub fn app_of_profiler_info(app_info: &MacSystemProfilterAppInfo, disk: &Disk) -> (out: Option<App>)
    ensures
        out is Some == app_at(app_info.path@, *disk) is Some,
        out is Some ==> out->0@ == app_at(app_info.path@, *disk)->0,
{
    MacAppPath::new(app_info.path.clone()).to_app(disk)
}

/// The record of the bundle at `path`.
pub fn from_path(path: &str, disk: &Disk) -> (out: Option<App>)
    ensures
        out is Some == app_at(path@, *disk) is Some,
        out is Some ==> out->0@ == app_at(path@, *disk)->0,
{
    MacAppPath::new(path.to_owned()).to_app(disk)
}

/// Which of an icon file's pictures is decoded, by their widths in pixels in
/// the file's order: the first that is at least 64 wide or, where none is,
/// the first of the widest.  None where no picture has a width.
pub fn largest_icon(widths: &Vec<u32>) -> (out: Option<usize>)
    ensures
        match out {
            Some(k) => {
                &&& k < widths.len()
                &&& widths[k as int] > 0
                &&& forall|j: int| 0 <= j < k ==> widths[j] < widths[k as int] && widths[j] < 64
                &&& widths[k as int] >= 64 || forall|j: int|
                    0 <= j < widths.len() ==> widths[j] <= widths[k as int]
            },
            None => forall|j: int| 0 <= j < widths.len() ==> widths[j] == 0,
        },
{
    let mut largest: Option<usize> = None;
    let mut largest_width: u32 = 0;
    let mut i: usize = 0;
    while i < widths.len()
        invariant
            i <= widths.len(),
            largest_width < 64,
            forall|j: int| 0 <= j < i ==> widths[j] <= largest_width,
            match largest {
                Some(k) => {
                    &&& k < i
                    &&& widths[k as int] == largest_width
                    &&& largest_width > 0
                    &&& forall|j: int| 0 <= j < k ==> widths[j] < widths[k as int]
                },
                None => largest_width == 0,
            },
        decreases widths.len() - i,
    {
        if widths[i] > largest_width {
            if widths[i] >= 64 {
                return Some(i);
            }
            largest_width = widths[i];
            largest = Some(i);
        }
        i += 1;
    }
    largest
}

} // verus!
