//! Turning what was read from a card's library folder into a scan: which
//! files are app descriptors, and when a read counts as a card, as no card,
//! or as a failed scan.
use vstd::prelude::*;

verus! {

/// The fields of a card's library-root descriptor.
pub struct LibraryFolder {
    pub contentid: String,
    pub label: String,
}

/// The fields of one app descriptor.
#[derive(Clone)]
pub struct AppState {
    pub appid: String,
    pub name: String,
    pub size_on_disk: u64,
}

/// One card's library as a scan found it.
pub struct LibraryScan {
    pub contentid: String,
    pub label: String,
    pub apps: Vec<AppState>,
}

/// What reading the library-root descriptor gave.
pub enum RootDescriptor {
    /// The file is not there: the card holds no library.
    Missing,
    /// The file is there but could not be read or parsed.
    Unparsable,
    Parsed(LibraryFolder),
}

/// The result of a scan of a mount point.
pub enum ScanOutcome {
    NotACard,
    IoError,
    Library(LibraryScan),
}

/// The bytes of ".acf".
pub open spec fn acf_ext() -> Seq<u8> {
    seq![46u8, 97u8, 99u8, 102u8]
}

/// The bytes end in ".acf".
pub open spec fn has_acf_suffix(b: Seq<u8>) -> bool {
    b.len() >= 4 && b.subrange(b.len() - 4, b.len() as int) == acf_ext()
}

/// The name, as UTF-8, ends in ".acf".
pub open spec fn is_acf_name(name: Seq<char>) -> bool {
    has_acf_suffix(vstd::utf8::encode_utf8(name))
}

/// The names among `names` that end in ".acf", in their order.
pub open spec fn acf_names(names: Seq<String>) -> Seq<String>
    decreases names.len(),
{
    if names.len() == 0 {
        Seq::empty()
    } else if is_acf_name(names.last()@) {
        acf_names(names.drop_last()).push(names.last())
    } else {
        acf_names(names.drop_last())
    }
}

/// The descriptors that parsed and name an app, in their order.
pub open spec fn kept_apps(apps: Seq<Option<AppState>>) -> Seq<AppState>
    decreases apps.len(),
{
    if apps.len() == 0 {
        Seq::empty()
    } else {
        match apps.last() {
            Some(a) => if a.appid@.len() > 0 {
                kept_apps(apps.drop_last()).push(a)
            } else {
                kept_apps(apps.drop_last())
            },
            None => kept_apps(apps.drop_last()),
        }
    }
}

/// A scan names its card and each of its apps.
pub open spec fn scan_ok(s: LibraryScan) -> bool {
    &&& s.contentid@.len() > 0
    &&& forall|j: int| 0 <= j < s.apps.len() ==> (#[trigger] s.apps@[j]).appid@.len() > 0
}

/// A file whose name ends in ".acf" is an app descriptor.
pub fn is_app_descriptor(file_name: &String) -> (r: bool)
    ensures
        r == is_acf_name(file_name@),
{
    let b = file_name.as_str().as_bytes();
    let n = b.len();
    if n < 4 {
        return false;
    }
    let r = b[n - 4] == 46u8 && b[n - 3] == 97u8 && b[n - 2] == 99u8 && b[n - 1] == 102u8;
    proof {
        let bs = b@;
        let tail = bs.subrange(n - 4, n as int);
        if r {
            assert(tail =~= acf_ext());
        } else {
            if tail == acf_ext() {
                assert(tail[0] == bs[n - 4]);
                assert(tail[1] == bs[n - 3]);
                assert(tail[2] == bs[n - 2]);
                assert(tail[3] == bs[n - 1]);
            }
        }
    }
    r
}

/// The app descriptors among the file names of a card's app folder.
pub fn select_app_descriptors(names: &Vec<String>) -> (r: Vec<String>)
    ensures
        r@ == acf_names(names@),
{
    let mut out: Vec<String> = Vec::new();
    let mut i: usize = 0;
    while i < names.len()
        invariant
            i <= names.len(),
            out@ == acf_names(names@.take(i as int)),
        decreases names.len() - i,
    {
        assert(names@.take(i as int + 1).drop_last() =~= names@.take(i as int));
        if is_app_descriptor(&names[i]) {
            out.push(names[i].clone());
        }
        i += 1;
    }
    assert(names@.take(names.len() as int) =~= names@);
    out
}

/// Assembles a scan from the root descriptor and the app descriptors that were
/// read (`None` where the app folder could not be listed; a `None` entry for a
/// descriptor that failed to read or parse). A missing root descriptor means no
/// card; an unreadable one, one without a content id or label, or an unlisted
/// app folder is a failed scan. Descriptors that failed, or that name no app,
/// are skipped.
pub fn assemble_scan(root: RootDescriptor, apps: Option<Vec<Option<AppState>>>) -> (r: ScanOutcome)
    ensures
        root is Missing ==> r is NotACard,
        root is Unparsable ==> r is IoError,
        root matches RootDescriptor::Parsed(lf) ==> {
            if lf.contentid@.len() == 0 || lf.label@.len() == 0 || apps is None {
                r is IoError
            } else {
                r matches ScanOutcome::Library(s) && s.contentid == lf.contentid
                    && s.label == lf.label && s.apps@ == kept_apps(apps->Some_0@)
            }
        },
        r matches ScanOutcome::Library(s) ==> scan_ok(s),
{
    match root {
        RootDescriptor::Missing => ScanOutcome::NotACard,
        RootDescriptor::Unparsable => ScanOutcome::IoError,
        RootDescriptor::Parsed(lf) => {
            if lf.contentid.as_str().is_empty() || lf.label.as_str().is_empty() {
                return ScanOutcome::IoError;
            }
            match apps {
                None => ScanOutcome::IoError,
                Some(list) => {
                    let mut kept: Vec<AppState> = Vec::new();
                    let mut i: usize = 0;
                    while i < list.len()
                        invariant
                            i <= list.len(),
                            kept@ == kept_apps(list@.take(i as int)),
                            forall|j: int| 0 <= j < kept.len() ==> (#[trigger] kept@[j]).appid@.len() > 0,
                        decreases list.len() - i,
                    {
                        assert(list@.take(i as int + 1).drop_last() =~= list@.take(i as int));
                        match &list[i] {
                            Some(a) => {
                                if !a.appid.as_str().is_empty() {
                                    kept.push(
                                        AppState {
                                            appid: a.appid.clone(),
                                            name: a.name.clone(),
                                            size_on_disk: a.size_on_disk,
                                        },
                                    );
                                }
                            },
                            None => {},
                        }
                        i += 1;
                    }
                    assert(list@.take(list.len() as int) =~= list@);
                    ScanOutcome::Library(LibraryScan { contentid: lf.contentid, label: lf.label, apps: kept })
                },
            }
        },
    }
}

} // verus!
