//! The decisions of the MaaCore updater: which release asset fits this
//! machine, what version is installed, and whether an update is due.

use vstd::prelude::*;
use crate::json::{json_as_array, json_get, json_parse, json_str_member, parse_json, Json, JsonView};
use crate::text::{chars_of, contains_chars, ends_with_chars, has_suffix, occurs_in, trim_span, trimmed};

verus! {

/// Why the machine's architecture has no MaaCore build.
#[derive(Debug, PartialEq, Eq)]
pub enum ArchError {
    /// The machine name (trimmed) is not one that MaaCore ships for.
    Unsupported(String),
}

/// The MaaCore asset suffix for a machine name as `uname -m` prints it,
/// after trimming: `None` where MaaCore ships no build.
pub open spec fn arch_suffix(machine: Seq<char>) -> Option<Seq<char>> {
    if machine == "x86_64"@ || machine == "amd64"@ {
        Some("x86_64"@)
    } else if machine == "aarch64"@ || machine == "arm64"@ {
        Some("aarch64"@)
    } else {
        None
    }
}

/// The MaaCore asset suffix for this machine, from the output of `uname -m`.
pub fn detect_arch(uname_output: &str) -> (res: Result<String, ArchError>)
    ensures
        match res {
            Ok(a) => arch_suffix(trimmed(uname_output@)) == Some(a@),
            Err(ArchError::Unsupported(m)) => arch_suffix(trimmed(uname_output@)) is None
                && m@ == trimmed(uname_output@),
        },
{
    let chars = chars_of(uname_output);
    let (a, b) = trim_span(&chars);
    let machine = uname_output.substring_char(a, b).to_string();
    if machine == "x86_64".to_string() || machine == "amd64".to_string() {
        Ok("x86_64".to_string())
    } else if machine == "aarch64".to_string() || machine == "arm64".to_string() {
        Ok("aarch64".to_string())
    } else {
        Err(ArchError::Unsupported(machine))
    }
}

/// Why no release could be picked from the GitHub API's answer.
#[derive(Debug, PartialEq, Eq)]
pub enum ReleaseError {
    /// The answer is not JSON.
    Unparsable,
    /// It has no string `tag_name`.
    MissingTag,
    /// No asset named like `*linux-<arch>*.tar.gz`.
    NoMatchingAsset,
    /// The chosen asset has no string `browser_download_url`.
    MissingDownloadUrl,
}

/// The name of a release asset, empty where it has none.
pub open spec fn asset_name(asset: JsonView) -> Seq<char> {
    match json_str_member(asset, "name"@) {
        Some(n) => n,
        None => Seq::empty(),
    }
}

/// An asset is wanted when its name holds `prefix` and ends with `.tar.gz`.
pub open spec fn wanted_asset(asset: JsonView, prefix: Seq<char>) -> bool {
    occurs_in(asset_name(asset), prefix) && has_suffix(asset_name(asset), ".tar.gz"@)
}

/// The first wanted asset of a list.
pub open spec fn first_wanted(assets: Seq<JsonView>, prefix: Seq<char>) -> Option<JsonView>
    decreases assets.len(),
{
    if assets.len() == 0 {
        None
    } else if wanted_asset(assets[0], prefix) {
        Some(assets[0])
    } else {
        first_wanted(assets.drop_first(), prefix)
    }
}

/// The `assets` array of a release description.
pub open spec fn release_assets(doc: JsonView) -> Option<Seq<JsonView>> {
    match json_get(doc, "assets"@) {
        Some(a) => json_as_array(a),
        None => None,
    }
}

/// What a release description yields for an architecture: its tag and the
/// download address of its first `linux-<arch>` `.tar.gz` asset.
pub open spec fn release_spec(doc: JsonView, arch: Seq<char>) -> Result<(Seq<char>, Seq<char>), ReleaseError> {
    match json_str_member(doc, "tag_name"@) {
        None => Err(ReleaseError::MissingTag),
        Some(tag) => {
            match release_assets(doc) {
                None => Err(ReleaseError::NoMatchingAsset),
                Some(items) => match first_wanted(items, "linux-"@ + arch) {
                    None => Err(ReleaseError::NoMatchingAsset),
                    Some(asset) => match json_str_member(asset, "browser_download_url"@) {
                        None => Err(ReleaseError::MissingDownloadUrl),
                        Some(url) => Ok((tag, url)),
                    },
                },
            }
        },
    }
}

proof fn lemma_first_wanted_skip(assets: Seq<JsonView>, prefix: Seq<char>, i: int)
    requires
        0 <= i <= assets.len(),
        forall|j: int| 0 <= j < i ==> !wanted_asset(#[trigger] assets[j], prefix),
    ensures
        first_wanted(assets, prefix) == first_wanted(assets.skip(i), prefix),
    decreases i,
{
    if i > 0 {
        let d = assets.drop_first();
        assert forall|j: int| 0 <= j < i - 1 implies !wanted_asset(#[trigger] d[j], prefix) by {
            assert(d[j] == assets[j + 1]);
        }
        lemma_first_wanted_skip(d, prefix, i - 1);
        assert(d.skip(i - 1) =~= assets.skip(i));
        assert(!wanted_asset(assets[0], prefix));
    } else {
        assert(assets.skip(0) =~= assets);
    }
}

proof fn lemma_first_wanted_is_first(assets: Seq<JsonView>, prefix: Seq<char>)
    ensures
        first_wanted(assets, prefix) matches Some(a) ==> exists|i: int|
            0 <= i < assets.len() && assets[i] == a && wanted_asset(assets[i], prefix) && forall|j: int|
                0 <= j < i ==> !wanted_asset(#[trigger] assets[j], prefix),
    decreases assets.len(),
{
    if assets.len() > 0 && !wanted_asset(assets[0], prefix) {
        let d = assets.drop_first();
        lemma_first_wanted_is_first(d, prefix);
        if let Some(a) = first_wanted(assets, prefix) {
            let i = choose|i: int|
                0 <= i < d.len() && d[i] == a && wanted_asset(d[i], prefix) && forall|j: int|
                    0 <= j < i ==> !wanted_asset(#[trigger] d[j], prefix);
            assert(assets[i + 1] == d[i]);
            assert forall|j: int| 0 <= j < i + 1 implies !wanted_asset(#[trigger] assets[j], prefix) by {
                if j > 0 {
                    assert(assets[j] == d[j - 1]);
                }
            }
        }
    } else if assets.len() > 0 {
        if let Some(a) = first_wanted(assets, prefix) {
            assert(assets[0] == a);
        }
    }
}

/// A picked release is the document's `tag_name` with the download address
/// of the first asset whose name holds `linux-<arch>` and ends with
/// `.tar.gz`; no earlier asset has such a name.
pub proof fn law_release_is_first_linux_tarball(doc: JsonView, arch: Seq<char>, tag: Seq<char>, url: Seq<char>)
    requires
        release_spec(doc, arch) == Ok::<(Seq<char>, Seq<char>), ReleaseError>((tag, url)),
    ensures
        json_get(doc, "tag_name"@) == Some(JsonView::Str(tag)),
        exists|items: Seq<JsonView>, i: int|
            {
                &&& json_get(doc, "assets"@) == Some(JsonView::Array(items))
                &&& 0 <= i < items.len()
                &&& occurs_in(asset_name(items[i]), "linux-"@ + arch)
                &&& has_suffix(asset_name(items[i]), ".tar.gz"@)
                &&& json_get(items[i], "browser_download_url"@) == Some(JsonView::Str(url))
                &&& forall|j: int|
                    0 <= j < i ==> !(occurs_in(asset_name(#[trigger] items[j]), "linux-"@ + arch) && has_suffix(
                        asset_name(items[j]),
                        ".tar.gz"@,
                    ))
            },
{
    let prefix = "linux-"@ + arch;
    let items = release_assets(doc)->0;
    assert(json_get(doc, "assets"@) == Some(JsonView::Array(items)));
    lemma_first_wanted_is_first(items, prefix);
    let a = first_wanted(items, prefix)->0;
    let i = choose|i: int|
        0 <= i < items.len() && items[i] == a && wanted_asset(items[i], prefix) && forall|j: int|
            0 <= j < i ==> !wanted_asset(#[trigger] items[j], prefix);
    assert forall|j: int|
        0 <= j < i implies !(occurs_in(asset_name(#[trigger] items[j]), prefix) && has_suffix(
            asset_name(items[j]),
            ".tar.gz"@,
        )) by {
        assert(!wanted_asset(items[j], prefix));
    }
}

/// Whether an asset's name holds `prefix` and ends with `.tar.gz`.
fn is_wanted(asset: &Json, prefix: &Vec<char>) -> (res: bool)
    ensures
        res == wanted_asset(asset@, prefix@),
{
    let name = match asset.str_member("name") {
        Some(n) => chars_of(n.as_str()),
        None => Vec::new(),
    };
    let suffix = chars_of(".tar.gz");
    contains_chars(&name, prefix) && ends_with_chars(&name, &suffix)
}

/// Picks the tag and the download address of the `linux-<arch>` build from a
/// release description of the GitHub API.
pub fn select_release(doc: &Json, arch: &str) -> (res: Result<(String, String), ReleaseError>)
    ensures
        match res {
            Ok((tag, url)) => release_spec(doc@, arch@) == Ok::<(Seq<char>, Seq<char>), ReleaseError>((tag@, url@)),
            Err(e) => release_spec(doc@, arch@) == Err::<(Seq<char>, Seq<char>), ReleaseError>(e),
        },
{
    let tag = match doc.str_member("tag_name") {
        Some(t) => t.clone(),
        None => return Err(ReleaseError::MissingTag),
    };
    let items = match doc.get("assets") {
        Some(a) => match a.as_array() {
            Some(items) => items,
            None => return Err(ReleaseError::NoMatchingAsset),
        },
        None => return Err(ReleaseError::NoMatchingAsset),
    };
    let mut target = "linux-".to_string();
    target.append(arch);
    let prefix = chars_of(target.as_str());
    let ghost views = items@.map_values(|j: Json| j@);
    let mut i: usize = 0;
    while i < items.len()
        invariant
            i <= items.len() == views.len(),
            views == items@.map_values(|j: Json| j@),
            prefix@ == "linux-"@ + arch@,
            json_str_member(doc@, "tag_name"@) == Some(tag@),
            release_assets(doc@) == Some(views),
            forall|j: int| 0 <= j < i ==> !wanted_asset(#[trigger] views[j], prefix@),
        decreases items.len() - i,
    {
        if is_wanted(&items[i], &prefix) {
            proof {
                lemma_first_wanted_skip(views, prefix@, i as int);
                assert(views.skip(i as int)[0] == views[i as int]);
            }
            return match items[i].str_member("browser_download_url") {
                Some(url) => Ok((tag, url.clone())),
                None => Err(ReleaseError::MissingDownloadUrl),
            };
        }
        i = i + 1;
    }
    proof {
        lemma_first_wanted_skip(views, prefix@, i as int);
        assert(views.skip(i as int).len() == 0);
    }
    Err(ReleaseError::NoMatchingAsset)
}

/// Reads the answer of the GitHub API's "latest release" request and picks
/// the tag and the download address of the `linux-<arch>` build.
pub fn fetch_latest_release(api_response: &str, arch: &str) -> (res: Result<(String, String), ReleaseError>)
    ensures
        match json_parse(api_response@) {
            None => res == Err::<(String, String), ReleaseError>(ReleaseError::Unparsable),
            Some(doc) => match res {
                Ok((tag, url)) => release_spec(doc, arch@) == Ok::<(Seq<char>, Seq<char>), ReleaseError>((tag@, url@)),
                Err(e) => release_spec(doc, arch@) == Err::<(Seq<char>, Seq<char>), ReleaseError>(e),
            },
        },
{
    match parse_json(api_response) {
        None => Err(ReleaseError::Unparsable),
        Some(doc) => select_release(&doc, arch),
    }
}


/// The installed MaaCore version recorded in a `resource/version.json` text:
/// its string member `version`.
pub open spec fn json_version_spec(text: Seq<char>) -> Option<Seq<char>> {
    match json_parse(text) {
        Some(doc) => json_str_member(doc, "version"@),
        None => None,
    }
}

/// An ASCII decimal digit byte.
pub open spec fn is_digit_byte(b: u8) -> bool {
    0x30 <= b && b <= 0x39
}

/// An ASCII letter or digit byte.
pub open spec fn is_alnum_byte(b: u8) -> bool {
    is_digit_byte(b) || (0x41 <= b && b <= 0x5a) || (0x61 <= b && b <= 0x7a)
}

/// The number of digit bytes in a row from position `i` of `s`.
pub open spec fn digit_run(s: Seq<u8>, i: int) -> nat
    decreases s.len() - i,
{
    if 0 <= i < s.len() && is_digit_byte(s[i]) {
        1 + digit_run(s, i + 1)
    } else {
        0
    }
}

/// Where a version mark `v<digits>.<digits>.<digits>` that starts at `i`
/// ends; the `v` must not follow a letter or a digit.
pub open spec fn version_end(s: Seq<u8>, i: int) -> Option<int> {
    if !(0 <= i < s.len() && s[i] == 0x76u8 && (i == 0 || !is_alnum_byte(s[i - 1]))) {
        None
    } else {
        let a = i + 1;
        let n1 = digit_run(s, a);
        let b = a + n1 + 1;
        let n2 = digit_run(s, b);
        let c = b + n2 + 1;
        let n3 = digit_run(s, c);
        if n1 > 0 && a + n1 < s.len() && s[a + n1] == 0x2eu8 && n2 > 0 && b + n2 < s.len()
            && s[b + n2] == 0x2eu8 && n3 > 0 {
            Some(c + n3)
        } else {
            None
        }
    }
}

/// The first version mark in `s` at or after position `i`.
pub open spec fn first_version_from(s: Seq<u8>, i: int) -> Option<Seq<u8>>
    decreases s.len() - i,
{
    if i < 0 || i >= s.len() {
        None
    } else {
        match version_end(s, i) {
            Some(e) => Some(s.subrange(i, e)),
            None => first_version_from(s, i + 1),
        }
    }
}

/// The version that a MaaCore library build carries in its data: the first
/// version mark `v<digits>.<digits>.<digits>` in its bytes, as text.
pub open spec fn library_version_spec(library: Seq<u8>) -> Option<Seq<char>> {
    match first_version_from(library, 0) {
        Some(v) => Some(v.map_values(|b: u8| b as char)),
        None => None,
    }
}

/// The installed version: the one that `resource/version.json` records, and
/// where it records none, the one that the library build carries.
pub open spec fn local_version_spec(version_json: Option<Seq<char>>, library: Option<Seq<u8>>) -> Option<Seq<char>> {
    let from_json = match version_json {
        Some(t) => json_version_spec(t),
        None => None,
    };
    match from_json {
        Some(v) => Some(v),
        None => match library {
            Some(l) => library_version_spec(l),
            None => None,
        },
    }
}

proof fn lemma_digit_run(s: Seq<u8>, i: int, j: int)
    requires
        0 <= i <= j <= s.len(),
        forall|k: int| i <= k < j ==> is_digit_byte(#[trigger] s[k]),
        j == s.len() || !is_digit_byte(s[j]),
    ensures
        digit_run(s, i) == j - i,
    decreases j - i,
{
    if i < j {
        lemma_digit_run(s, i + 1, j);
    }
}

/// The number of digit bytes in a row from position `i`.
fn digit_run_exec(s: &[u8], i: usize) -> (res: usize)
    requires
        i <= s@.len(),
    ensures
        res == digit_run(s@, i as int),
        i + res <= s@.len(),
{
    let mut j: usize = i;
    while j < s.len() && 0x30 <= s[j] && s[j] <= 0x39
        invariant
            i <= j <= s@.len(),
            forall|k: int| i <= k < j ==> is_digit_byte(#[trigger] s@[k]),
        decreases s@.len() - j,
    {
        j = j + 1;
    }
    proof {
        lemma_digit_run(s@, i as int, j as int);
    }
    j - i
}

/// Where a version mark starting at `i` ends.
fn version_end_exec(s: &[u8], i: usize) -> (res: Option<usize>)
    requires
        i < s@.len(),
    ensures
        match res {
            Some(e) => version_end(s@, i as int) == Some(e as int) && e <= s@.len(),
            None => version_end(s@, i as int) is None,
        },
{
    if s[i] != 0x76 {
        return None;
    }
    if i > 0 {
        let p = s[i - 1];
        if (0x30 <= p && p <= 0x39) || (0x41 <= p && p <= 0x5a) || (0x61 <= p && p <= 0x7a) {
            return None;
        }
    }
    let a = i + 1;
    let n1 = digit_run_exec(s, a);
    if n1 == 0 || a + n1 >= s.len() || s[a + n1] != 0x2e {
        return None;
    }
    let b = a + n1 + 1;
    let n2 = digit_run_exec(s, b);
    if n2 == 0 || b + n2 >= s.len() || s[b + n2] != 0x2e {
        return None;
    }
    let c = b + n2 + 1;
    let n3 = digit_run_exec(s, c);
    if n3 == 0 {
        return None;
    }
    Some(c + n3)
}

/// The one-character text of a byte of a version mark.
fn mark_char_text(b: u8) -> (res: &'static str)
    requires
        b == 0x76u8 || b == 0x2eu8 || is_digit_byte(b),
    ensures
        res@ == seq![b as char],
{
    proof {
        reveal_strlit("v");
        reveal_strlit(".");
        reveal_strlit("0");
        reveal_strlit("1");
        reveal_strlit("2");
        reveal_strlit("3");
        reveal_strlit("4");
        reveal_strlit("5");
        reveal_strlit("6");
        reveal_strlit("7");
        reveal_strlit("8");
        reveal_strlit("9");
    }
    let r = match b {
        0x76 => "v",
        0x2e => ".",
        0x30 => "0",
        0x31 => "1",
        0x32 => "2",
        0x33 => "3",
        0x34 => "4",
        0x35 => "5",
        0x36 => "6",
        0x37 => "7",
        0x38 => "8",
        _ => "9",
    };
    assert(r@ =~= seq![b as char]);
    r
}

proof fn lemma_mark_bytes(s: Seq<u8>, i: int, e: int)
    requires
        version_end(s, i) == Some(e),
    ensures
        i < e <= s.len(),
        forall|k: int| i <= k < e ==> (#[trigger] s[k] == 0x76u8 || s[k] == 0x2eu8 || is_digit_byte(s[k])),
{
    let a = i + 1;
    let n1 = digit_run(s, a);
    let b = a + n1 + 1;
    let n2 = digit_run(s, b);
    let c = b + n2 + 1;
    let n3 = digit_run(s, c);
    lemma_run_digits(s, a);
    lemma_run_digits(s, b);
    lemma_run_digits(s, c);
    assert forall|k: int| i <= k < e implies (#[trigger] s[k] == 0x76u8 || s[k] == 0x2eu8 || is_digit_byte(s[k])) by {
        if k == i {
        } else if k < a + n1 {
        } else if k == a + n1 {
        } else if k < b + n2 {
        } else if k == b + n2 {
        } else {
        }
    }
}

proof fn lemma_run_digits(s: Seq<u8>, i: int)
    ensures
        forall|k: int| i <= k < i + digit_run(s, i) ==> is_digit_byte(#[trigger] s[k]),
        i + digit_run(s, i) <= s.len() || digit_run(s, i) == 0,
    decreases s.len() - i,
{
    if 0 <= i < s.len() && is_digit_byte(s[i]) {
        lemma_run_digits(s, i + 1);
    }
}

/// The version that a MaaCore library build carries in its data, found in
/// the bytes of `libMaaCore.so`.
pub fn library_version(library: &[u8]) -> (res: Option<String>)
    ensures
        match res {
            Some(v) => library_version_spec(library@) == Some(v@),
            None => library_version_spec(library@) is None,
        },
{
    let mut i: usize = 0;
    while i < library.len()
        invariant
            i <= library@.len(),
            first_version_from(library@, 0) == first_version_from(library@, i as int),
        decreases library@.len() - i,
    {
        match version_end_exec(library, i) {
            Some(e) => {
                proof {
                    lemma_mark_bytes(library@, i as int, e as int);
                }
                let ghost mark = library@.subrange(i as int, e as int);
                let mut out = "".to_string();
                proof {
                    reveal_strlit("");
                }
                let mut k: usize = i;
                while k < e
                    invariant
                        i <= k <= e <= library@.len(),
                        forall|m: int| i <= m < e ==> (#[trigger] library@[m] == 0x76u8 || library@[m] == 0x2eu8 || is_digit_byte(library@[m])),
                        out@ == library@.subrange(i as int, k as int).map_values(|b: u8| b as char),
                    decreases e - k,
                {
                    let t = mark_char_text(library[k]);
                    out.append(t);
                    assert(library@.subrange(i as int, k + 1).map_values(|b: u8| b as char) =~= library@.subrange(i as int, k as int).map_values(|b: u8| b as char).push(library@[k as int] as char));
                    k = k + 1;
                }
                return Some(out);
            },
            None => {},
        }
        i = i + 1;
    }
    None
}

/// The installed MaaCore version: what the text of `resource/version.json`
/// records, and where it records none (or cannot be read), the version that
/// the bytes of `libMaaCore.so` carry.
pub fn local_version(version_json: Option<&str>, library: Option<&[u8]>) -> (res: Option<String>)
    ensures
        match res {
            Some(v) => local_version_spec(
                match version_json {
                    Some(t) => Some(t@),
                    None => None,
                },
                match library {
                    Some(l) => Some(l@),
                    None => None,
                },
            ) == Some(v@),
            None => local_version_spec(
                match version_json {
                    Some(t) => Some(t@),
                    None => None,
                },
                match library {
                    Some(l) => Some(l@),
                    None => None,
                },
            ) is None,
        },
{
    let from_json = match version_json {
        Some(text) => match parse_json(text) {
            Some(doc) => match doc.str_member("version") {
                Some(v) => Some(v.clone()),
                None => None,
            },
            None => None,
        },
        None => None,
    };
    match from_json {
        Some(v) => Some(v),
        None => match library {
            Some(l) => library_version(l),
            None => None,
        },
    }
}

/// Compares the installed version with the latest release tag. Gives back
/// the installed version (`未知` where it is not known), the latest tag, and
/// whether an update is due: the installed version is known and differs from
/// the latest tag.
pub fn check_update(local: Option<String>, latest_tag: String) -> (res: (String, String, bool))
    ensures
        res.0@ == (match local {
            Some(v) => v@,
            None => "未知"@,
        }),
        res.1@ == latest_tag@,
        res.2 == (res.0@ != "未知"@ && res.0@ != latest_tag@),
{
    let unknown = "未知".to_string();
    let local_version = match local {
        Some(v) => v,
        None => "未知".to_string(),
    };
    let has_update = !(local_version == unknown) && !(local_version == latest_tag);
    (local_version, latest_tag, has_update)
}

/// Whether the updater leaves a file alone when it copies a new build over
/// the runtime directory: backups and downloads are named with a leading `_`.
pub fn skipped_when_copying(file_name: &str) -> (res: bool)
    ensures
        res == (file_name@.len() > 0 && file_name@[0] == '_'),
{
    let chars = chars_of(file_name);
    chars.len() > 0 && chars[0] == '_'
}

} // verus!
