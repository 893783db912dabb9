use vstd::prelude::*;

verus! {

/// What the system monitor reports of the operating system.
pub struct OsInfo {
    pub name: Option<String>,
    pub pretty_name: Option<String>,
    pub version: Option<String>,
    pub version_id: Option<String>,
    pub os_type: Option<String>,
    pub kernel_release: Option<String>,
    pub kernel_version: Option<String>,
}

/// The labels of the "About System" dialog: each is hidden (`None`) or
/// shows a text.
pub struct AboutLabels {
    pub os_name: Option<String>,
    pub version: Option<String>,
    pub kernel_release: Option<String>,
    pub kernel_version: Option<String>,
}

/// The view of an optional string.
pub open spec fn opt_view(s: Option<String>) -> Option<Seq<char>> {
    match s {
        Some(t) => Some(t@),
        None => None,
    }
}

/// The kernel line: the kernel's name and its release, separated by a space;
/// "Unknown" in place of an unknown name; the name alone when the release is
/// unknown.
pub open spec fn kernel_release_spec(os_type: Option<Seq<char>>, release: Option<Seq<char>>) -> Option<
    Seq<char>,
> {
    match (os_type, release) {
        (Some(k), Some(r)) => Some(k + " "@ + r),
        (None, Some(r)) => Some("Unknown "@ + r),
        (Some(k), None) => Some(k),
        (None, None) => None,
    }
}

/// Shows `text` on a label, or hides the label when there is none; says
/// whether the label is shown.
fn bind_text(label: &mut Option<String>, text: Option<String>) -> (shown: bool)
    ensures
        opt_view(*final(label)) == opt_view(text),
        shown == text is Some,
{
    match text {
        Some(t) => {
            *label = Some(t);
            true
        },
        None => {
            *label = None;
            false
        },
    }
}

/// The kernel line of the dialog.
pub fn format_kernel_release_string(os_info: &OsInfo) -> (r: Option<String>)
    ensures
        opt_view(r) == kernel_release_spec(
            opt_view(os_info.os_type),
            opt_view(os_info.kernel_release),
        ),
{
    match (&os_info.os_type, &os_info.kernel_release) {
        (Some(kernel), Some(release)) => {
            let mut s = kernel.clone();
            s.append(" ");
            s.append(release.as_str());
            Some(s)
        },
        (None, Some(release)) => {
            let mut s = String::from_str("Unknown ");
            s.append(release.as_str());
            Some(s)
        },
        (Some(kernel), None) => Some(kernel.clone()),
        (None, None) => None,
    }
}

/// The first of two optional texts that is there.
pub open spec fn first_of(a: Option<Seq<char>>, b: Option<Seq<char>>) -> Option<Seq<char>> {
    if a is Some {
        a
    } else {
        b
    }
}

/// Fills the dialog's labels. The name label shows the pretty name, else the
/// plain name; the version label shows the version id. When there is no
/// version id, the full version goes to the name label in its place, which
/// it then shows (or, without a version, hides); the version label is hidden.
pub fn setup(os_info: &OsInfo) -> (r: AboutLabels)
    ensures
        opt_view(r.os_name) == if os_info.version_id is Some {
            first_of(opt_view(os_info.pretty_name), opt_view(os_info.name))
        } else {
            opt_view(os_info.version)
        },
        opt_view(r.version) == opt_view(os_info.version_id),
        opt_view(r.kernel_release) == kernel_release_spec(
            opt_view(os_info.os_type),
            opt_view(os_info.kernel_release),
        ),
        opt_view(r.kernel_version) == opt_view(os_info.kernel_version),
{
    let mut labels = AboutLabels { os_name: None, version: None, kernel_release: None, kernel_version: None };
    if !bind_text(&mut labels.os_name, os_info.pretty_name.clone()) {
        bind_text(&mut labels.os_name, os_info.name.clone());
    }
    if !bind_text(&mut labels.version, os_info.version_id.clone()) {
        bind_text(&mut labels.os_name, os_info.version.clone());
    }
    bind_text(&mut labels.kernel_release, format_kernel_release_string(os_info));
    bind_text(&mut labels.kernel_version, os_info.kernel_version.clone());
    labels
}

} // verus!
