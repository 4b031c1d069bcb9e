//! The report document tree.
//!
//! The assembler's output is turned into a JSON-shaped tree before an
//! external serializer writes it out. The tree has no null value at all:
//! an optional field that is absent, and a list field that is empty, get no
//! member in their object — the schema's omission rule, enforced by
//! construction and stated in each contract below. Member names are drawn
//! from [`JsonKey`], a closed set, which the writer maps to the schema's
//! member strings.

use vstd::prelude::*;
use crate::cargo_audit;
use crate::normalize::normalized_core;
use crate::report;
use crate::report::severity_label_spec;

verus! {

/// Every member name the document can carry.
#[derive(Clone, Copy, Debug, PartialEq, Eq, Structural)]
pub enum JsonKey {
    Version,
    Vulnerabilities,
    Scan,
    DependencyFiles,
    Id,
    Name,
    Description,
    Severity,
    Solution,
    Identifiers,
    CvssVectors,
    Links,
    Flags,
    Location,
    /// The schema's `type` member.
    Kind,
    Value,
    Url,
    Vendor,
    Vector,
    Origin,
    File,
    Dependency,
    Package,
    Iid,
    Direct,
    DependencyPath,
    Path,
    PackageManager,
    Dependencies,
    Analyzer,
    Scanner,
    StartTime,
    EndTime,
    Status,
}

/// A JSON-shaped document value. There is deliberately no null variant:
/// whatever is absent is omitted.
pub enum Json {
    Bool(bool),
    Num(u64),
    Str(String),
    Arr(Vec<Json>),
    Obj(Vec<(JsonKey, Json)>),
}

/// The member list of an object, empty for every other value.
pub open spec fn obj_of(j: Json) -> Seq<(JsonKey, Json)> {
    match j {
        Json::Obj(f) => f@,
        _ => Seq::empty(),
    }
}

/// The object has a member of this name.
pub open spec fn has_key(fs: Seq<(JsonKey, Json)>, k: JsonKey) -> bool {
    exists|i: int| 0 <= i < fs.len() && (#[trigger] fs[i]).0 == k
}

/// No member name repeats.
pub open spec fn distinct_keys(fs: Seq<(JsonKey, Json)>) -> bool {
    forall|i: int, j: int| 0 <= i < j < fs.len() ==> (#[trigger] fs[i]).0 != (#[trigger] fs[j]).0
}

/// The member of this name holds this character string.
pub open spec fn key_is_str(fs: Seq<(JsonKey, Json)>, k: JsonKey, s: Seq<char>) -> bool {
    &&& has_key(fs, k)
    &&& forall|i: int|
        0 <= i < fs.len() && (#[trigger] fs[i]).0 == k ==> (fs[i].1 matches Json::Str(x) && x@ == s)
}

/// The `package` object of a dependency: its `name` member is present
/// exactly when a name is known.
pub open spec fn package_json_ok(p: report::Package, j: Json) -> bool {
    j matches Json::Obj(f) && {
        let fs = f@;
        &&& distinct_keys(fs)
        &&& (has_key(fs, JsonKey::Name) <==> p.name is Some)
        &&& forall|i: int|
            0 <= i < fs.len() && (#[trigger] fs[i]).0 == JsonKey::Name ==> (p.name matches Some(nm)
                && fs[i].1 matches Json::Str(x) && x@ == nm@)
        &&& forall|i: int| 0 <= i < fs.len() ==> (#[trigger] fs[i]).0 == JsonKey::Name
    }
}

/// One step of a dependency path: an object holding the step's `iid`.
pub open spec fn iid_json_ok(x: report::IID, j: Json) -> bool {
    j matches Json::Obj(f) && {
        let fs = f@;
        &&& fs.len() == 1
        &&& fs[0].0 == JsonKey::Iid
        &&& fs[0].1 == Json::Num(x.iid as u64)
    }
}

/// A dependency object: every optional field appears exactly when it is
/// known, and with the known value.
pub open spec fn dependency_json_ok(d: report::Dependency, j: Json) -> bool {
    j matches Json::Obj(f) && {
        let fs = f@;
        &&& distinct_keys(fs)
        &&& (has_key(fs, JsonKey::Package) <==> d.package is Some)
        &&& forall|i: int|
            0 <= i < fs.len() && (#[trigger] fs[i]).0 == JsonKey::Package ==> (d.package matches Some(
                p,
            ) && package_json_ok(p, fs[i].1))
        &&& (has_key(fs, JsonKey::Version) <==> d.version is Some)
        &&& forall|i: int|
            0 <= i < fs.len() && (#[trigger] fs[i]).0 == JsonKey::Version ==> (d.version matches Some(
                ver,
            ) && fs[i].1 matches Json::Str(x) && x@ == ver@)
        &&& (has_key(fs, JsonKey::Iid) <==> d.iid is Some)
        &&& forall|i: int|
            0 <= i < fs.len() && (#[trigger] fs[i]).0 == JsonKey::Iid ==> (d.iid matches Some(w)
                && fs[i].1 == Json::Num(w as u64))
        &&& (has_key(fs, JsonKey::Direct) <==> d.direct is Some)
        &&& forall|i: int|
            0 <= i < fs.len() && (#[trigger] fs[i]).0 == JsonKey::Direct ==> (d.direct matches Some(
                b,
            ) && fs[i].1 == Json::Bool(b))
        &&& (has_key(fs, JsonKey::DependencyPath) <==> d.dependency_path is Some)
        &&& forall|i: int|
            0 <= i < fs.len() && (#[trigger] fs[i]).0 == JsonKey::DependencyPath
                ==> (d.dependency_path matches Some(path) && fs[i].1 matches Json::Arr(steps) && {
                &&& steps@.len() == path@.len()
                &&& forall|k: int|
                    0 <= k < steps@.len() ==> iid_json_ok(path@[k], #[trigger] steps@[k])
            })
    }
}

/// An identifier object: `type`, `name` and `value` always, `url` exactly
/// when known.
pub open spec fn identifier_json_ok(x: report::Identifier, j: Json) -> bool {
    j matches Json::Obj(f) && {
        let fs = f@;
        &&& distinct_keys(fs)
        &&& key_is_str(fs, JsonKey::Kind, x.kind@)
        &&& key_is_str(fs, JsonKey::Name, x.name@)
        &&& key_is_str(fs, JsonKey::Value, x.value@)
        &&& (has_key(fs, JsonKey::Url) <==> x.url is Some)
        &&& forall|i: int|
            0 <= i < fs.len() && (#[trigger] fs[i]).0 == JsonKey::Url ==> (x.url matches Some(u)
                && fs[i].1 matches Json::Str(s) && s@ == u@)
    }
}

/// A link object: `url` always, `name` exactly when known.
pub open spec fn link_json_ok(x: report::Link, j: Json) -> bool {
    j matches Json::Obj(f) && {
        let fs = f@;
        &&& distinct_keys(fs)
        &&& key_is_str(fs, JsonKey::Url, x.url@)
        &&& (has_key(fs, JsonKey::Name) <==> x.name is Some)
        &&& forall|i: int|
            0 <= i < fs.len() && (#[trigger] fs[i]).0 == JsonKey::Name ==> (x.name matches Some(nm)
                && fs[i].1 matches Json::Str(s) && s@ == nm@)
    }
}

/// A location object: the scanned file and the dependency found in it.
pub open spec fn location_json_ok(x: report::Location, j: Json) -> bool {
    j matches Json::Obj(f) && {
        let fs = f@;
        &&& distinct_keys(fs)
        &&& key_is_str(fs, JsonKey::File, x.file@)
        &&& has_key(fs, JsonKey::Dependency)
        &&& forall|i: int|
            0 <= i < fs.len() && (#[trigger] fs[i]).0 == JsonKey::Dependency ==> dependency_json_ok(
                x.dependency,
                fs[i].1,
            )
    }
}

/// A finding object. `severity` always carries the canonical label;
/// `solution`, `name` and `description` appear exactly when known; the
/// list members `cvss_vectors`, `links` and `flags` appear exactly when
/// non-empty — a finding without a reference URL gets no `links` member at
/// all, not an empty or null one.
pub open spec fn vulnerability_json_ok(v: report::Vulnerability, j: Json) -> bool {
    j matches Json::Obj(f) && {
        let fs = f@;
        &&& distinct_keys(fs)
        &&& key_is_str(fs, JsonKey::Id, v.id@)
        &&& (has_key(fs, JsonKey::Name) <==> v.name is Some)
        &&& forall|i: int|
            0 <= i < fs.len() && (#[trigger] fs[i]).0 == JsonKey::Name ==> (v.name matches Some(nm)
                && fs[i].1 matches Json::Str(s) && s@ == nm@)
        &&& (has_key(fs, JsonKey::Description) <==> v.description is Some)
        &&& forall|i: int|
            0 <= i < fs.len() && (#[trigger] fs[i]).0 == JsonKey::Description
                ==> (v.description matches Some(d) && fs[i].1 matches Json::Str(s) && s@ == d@)
        &&& key_is_str(fs, JsonKey::Severity, severity_label_spec(v.severity))
        &&& (has_key(fs, JsonKey::Solution) <==> v.solution is Some)
        &&& forall|i: int|
            0 <= i < fs.len() && (#[trigger] fs[i]).0 == JsonKey::Solution ==> (v.solution matches Some(
                sol,
            ) && fs[i].1 matches Json::Str(s) && s@ == sol@)
        &&& has_key(fs, JsonKey::Identifiers)
        &&& forall|i: int|
            0 <= i < fs.len() && (#[trigger] fs[i]).0 == JsonKey::Identifiers
                ==> (fs[i].1 matches Json::Arr(ids) && {
                &&& ids@.len() == v.identifiers@.len()
                &&& forall|k: int|
                    0 <= k < ids@.len() ==> identifier_json_ok(v.identifiers@[k], #[trigger] ids@[k])
            })
        &&& (has_key(fs, JsonKey::CvssVectors) <==> v.cvss_vectors@.len() != 0)
        &&& (has_key(fs, JsonKey::Links) <==> v.links@.len() != 0)
        &&& forall|i: int|
            0 <= i < fs.len() && (#[trigger] fs[i]).0 == JsonKey::Links ==> (fs[i].1 matches Json::Arr(
                ls,
            ) && {
                &&& ls@.len() == v.links@.len()
                &&& forall|k: int| 0 <= k < ls@.len() ==> link_json_ok(v.links@[k], #[trigger] ls@[k])
            })
        &&& (has_key(fs, JsonKey::Flags) <==> v.flags@.len() != 0)
        &&& has_key(fs, JsonKey::Location)
        &&& forall|i: int|
            0 <= i < fs.len() && (#[trigger] fs[i]).0 == JsonKey::Location ==> location_json_ok(
                v.location,
                fs[i].1,
            )
    }
}

/// A vendor object.
pub open spec fn vendor_json_ok(x: report::Vendor, j: Json) -> bool {
    j matches Json::Obj(f) && {
        let fs = f@;
        &&& distinct_keys(fs)
        &&& key_is_str(fs, JsonKey::Name, x.name@)
    }
}

/// An analyzer or scanner identity object: `id`, `name`, `vendor` and
/// `version` always, `url` exactly when known.
pub open spec fn tool_json_ok(
    id: Seq<char>,
    name: Seq<char>,
    url: Option<String>,
    vendor: report::Vendor,
    version: Seq<char>,
    j: Json,
) -> bool {
    j matches Json::Obj(f) && {
        let fs = f@;
        &&& distinct_keys(fs)
        &&& key_is_str(fs, JsonKey::Id, id)
        &&& key_is_str(fs, JsonKey::Name, name)
        &&& (has_key(fs, JsonKey::Url) <==> url is Some)
        &&& forall|i: int|
            0 <= i < fs.len() && (#[trigger] fs[i]).0 == JsonKey::Url ==> (url matches Some(u)
                && fs[i].1 matches Json::Str(s) && s@ == u@)
        &&& has_key(fs, JsonKey::Vendor)
        &&& forall|i: int|
            0 <= i < fs.len() && (#[trigger] fs[i]).0 == JsonKey::Vendor ==> vendor_json_ok(
                vendor,
                fs[i].1,
            )
        &&& key_is_str(fs, JsonKey::Version, version)
    }
}

/// A scan metadata object.
pub open spec fn scan_json_ok(x: report::Scan, j: Json) -> bool {
    j matches Json::Obj(f) && {
        let fs = f@;
        &&& distinct_keys(fs)
        &&& has_key(fs, JsonKey::Analyzer)
        &&& forall|i: int|
            0 <= i < fs.len() && (#[trigger] fs[i]).0 == JsonKey::Analyzer ==> tool_json_ok(
                x.analyzer.id@,
                x.analyzer.name@,
                x.analyzer.url,
                x.analyzer.vendor,
                x.analyzer.version@,
                fs[i].1,
            )
        &&& has_key(fs, JsonKey::Scanner)
        &&& forall|i: int|
            0 <= i < fs.len() && (#[trigger] fs[i]).0 == JsonKey::Scanner ==> tool_json_ok(
                x.scanner.id@,
                x.scanner.name@,
                x.scanner.url,
                x.scanner.vendor,
                x.scanner.version@,
                fs[i].1,
            )
        &&& key_is_str(fs, JsonKey::StartTime, x.start_time@)
        &&& key_is_str(fs, JsonKey::EndTime, x.end_time@)
        &&& key_is_str(
            fs,
            JsonKey::Status,
            if x.status is Success {
                "success"@
            } else {
                "failure"@
            },
        )
        &&& key_is_str(fs, JsonKey::Kind, "dependency_scanning"@)
    }
}

/// A dependency file object.
pub open spec fn dependency_file_json_ok(x: report::DependencyFile, j: Json) -> bool {
    j matches Json::Obj(f) && {
        let fs = f@;
        &&& distinct_keys(fs)
        &&& key_is_str(fs, JsonKey::Path, x.path@)
        &&& key_is_str(fs, JsonKey::PackageManager, x.package_manager@)
        &&& has_key(fs, JsonKey::Dependencies)
        &&& forall|i: int|
            0 <= i < fs.len() && (#[trigger] fs[i]).0 == JsonKey::Dependencies
                ==> (fs[i].1 matches Json::Arr(ds) && {
                &&& ds@.len() == x.dependencies@.len()
                &&& forall|k: int|
                    0 <= k < ds@.len() ==> dependency_json_ok(x.dependencies@[k], #[trigger] ds@[k])
            })
    }
}

/// The whole document: `version`, `vulnerabilities` and `dependency_files`
/// always; the `scan` block exactly when the report generation carries one.
pub open spec fn report_json_ok(x: report::Report, j: Json) -> bool {
    j matches Json::Obj(f) && {
        let fs = f@;
        &&& distinct_keys(fs)
        &&& key_is_str(fs, JsonKey::Version, x.version@)
        &&& has_key(fs, JsonKey::Vulnerabilities)
        &&& forall|i: int|
            0 <= i < fs.len() && (#[trigger] fs[i]).0 == JsonKey::Vulnerabilities
                ==> (fs[i].1 matches Json::Arr(vs) && {
                &&& vs@.len() == x.vulnerabilities@.len()
                &&& forall|k: int|
                    0 <= k < vs@.len() ==> vulnerability_json_ok(
                        x.vulnerabilities@[k],
                        #[trigger] vs@[k],
                    )
            })
        &&& (has_key(fs, JsonKey::Scan) <==> x.scan is Some)
        &&& forall|i: int|
            0 <= i < fs.len() && (#[trigger] fs[i]).0 == JsonKey::Scan ==> (x.scan matches Some(sc)
                && scan_json_ok(sc, fs[i].1))
        &&& has_key(fs, JsonKey::DependencyFiles)
        &&& forall|i: int|
            0 <= i < fs.len() && (#[trigger] fs[i]).0 == JsonKey::DependencyFiles
                ==> (fs[i].1 matches Json::Arr(dfs) && {
                &&& dfs@.len() == x.dependency_files@.len()
                &&& forall|k: int|
                    0 <= k < dfs@.len() ==> dependency_file_json_ok(
                        x.dependency_files@[k],
                        #[trigger] dfs@[k],
                    )
            })
    }
}

/// Append one member to an object under construction.
fn push_field(fs: &mut Vec<(JsonKey, Json)>, k: JsonKey, v: Json)
    ensures
        final(fs)@ == old(fs)@.push((k, v)),
        has_key(final(fs)@, k),
        forall|k2: JsonKey| has_key(old(fs)@, k2) ==> has_key(final(fs)@, k2),
{
    fs.push((k, v));
    proof {
        assert(fs@[fs@.len() - 1].0 == k);
        assert forall|k2: JsonKey| has_key(old(fs)@, k2) implies has_key(fs@, k2) by {
            let i = choose|i: int| 0 <= i < old(fs)@.len() && (#[trigger] old(fs)@[i]).0 == k2;
            assert(fs@[i].0 == k2);
        }
    }
}

/// Build the `package` object of a dependency.
pub fn package_to_json(p: &report::Package) -> (j: Json)
    ensures
        package_json_ok(*p, j),
{
    let mut fs: Vec<(JsonKey, Json)> = Vec::new();
    match &p.name {
        Option::Some(nm) => push_field(&mut fs, JsonKey::Name, Json::Str(nm.clone())),
        Option::None => {},
    }
    Json::Obj(fs)
}

/// Build a dependency object, omitting every absent field.
pub fn dependency_to_json(d: &report::Dependency) -> (j: Json)
    ensures
        dependency_json_ok(*d, j),
{
    let mut fs: Vec<(JsonKey, Json)> = Vec::new();
    match &d.package {
        Option::Some(p) => push_field(&mut fs, JsonKey::Package, package_to_json(p)),
        Option::None => {},
    }
    match &d.version {
        Option::Some(ver) => push_field(&mut fs, JsonKey::Version, Json::Str(ver.clone())),
        Option::None => {},
    }
    match d.iid {
        Option::Some(w) => push_field(&mut fs, JsonKey::Iid, Json::Num(w as u64)),
        Option::None => {},
    }
    match d.direct {
        Option::Some(b) => push_field(&mut fs, JsonKey::Direct, Json::Bool(b)),
        Option::None => {},
    }
    match &d.dependency_path {
        Option::Some(path) => {
            let mut steps: Vec<Json> = Vec::new();
            let mut i: usize = 0;
            while i < path.len()
                invariant
                    i <= path@.len(),
                    steps@.len() == i,
                    forall|k: int| 0 <= k < i ==> iid_json_ok(path@[k], #[trigger] steps@[k]),
                decreases path@.len() - i,
            {
                let mut sf: Vec<(JsonKey, Json)> = Vec::new();
                push_field(&mut sf, JsonKey::Iid, Json::Num(path[i].iid as u64));
                steps.push(Json::Obj(sf));
                i = i + 1;
            }
            push_field(&mut fs, JsonKey::DependencyPath, Json::Arr(steps));
        },
        Option::None => {},
    }
    Json::Obj(fs)
}

/// Build an identifier object.
pub fn identifier_to_json(x: &report::Identifier) -> (j: Json)
    ensures
        identifier_json_ok(*x, j),
{
    let mut fs: Vec<(JsonKey, Json)> = Vec::new();
    push_field(&mut fs, JsonKey::Kind, Json::Str(x.kind.clone()));
    push_field(&mut fs, JsonKey::Name, Json::Str(x.name.clone()));
    match &x.url {
        Option::Some(u) => push_field(&mut fs, JsonKey::Url, Json::Str(u.clone())),
        Option::None => {},
    }
    push_field(&mut fs, JsonKey::Value, Json::Str(x.value.clone()));
    Json::Obj(fs)
}

/// Build a link object.
pub fn link_to_json(x: &report::Link) -> (j: Json)
    ensures
        link_json_ok(*x, j),
{
    let mut fs: Vec<(JsonKey, Json)> = Vec::new();
    match &x.name {
        Option::Some(nm) => push_field(&mut fs, JsonKey::Name, Json::Str(nm.clone())),
        Option::None => {},
    }
    push_field(&mut fs, JsonKey::Url, Json::Str(x.url.clone()));
    Json::Obj(fs)
}

/// Build a location object.
pub fn location_to_json(x: &report::Location) -> (j: Json)
    ensures
        location_json_ok(*x, j),
{
    let mut fs: Vec<(JsonKey, Json)> = Vec::new();
    push_field(&mut fs, JsonKey::File, Json::Str(x.file.clone()));
    push_field(&mut fs, JsonKey::Dependency, dependency_to_json(&x.dependency));
    Json::Obj(fs)
}

/// Build a finding object: required members always, optional members and
/// list members only where there is something to say.
#[verifier::rlimit(100)]
pub fn vulnerability_to_json(v: &report::Vulnerability) -> (j: Json)
    ensures
        vulnerability_json_ok(*v, j),
{
    let mut fs: Vec<(JsonKey, Json)> = Vec::new();
    push_field(&mut fs, JsonKey::Id, Json::Str(v.id.clone()));
    match &v.name {
        Option::Some(nm) => push_field(&mut fs, JsonKey::Name, Json::Str(nm.clone())),
        Option::None => {},
    }
    match &v.description {
        Option::Some(d) => push_field(&mut fs, JsonKey::Description, Json::Str(d.clone())),
        Option::None => {},
    }
    push_field(&mut fs, JsonKey::Severity, Json::Str(v.severity.label()));
    match &v.solution {
        Option::Some(sol) => push_field(&mut fs, JsonKey::Solution, Json::Str(sol.clone())),
        Option::None => {},
    }
    let mut ids: Vec<Json> = Vec::new();
    let mut i: usize = 0;
    while i < v.identifiers.len()
        invariant
            i <= v.identifiers@.len(),
            ids@.len() == i,
            forall|k: int| 0 <= k < i ==> identifier_json_ok(v.identifiers@[k], #[trigger] ids@[k]),
        decreases v.identifiers@.len() - i,
    {
        let idj = identifier_to_json(&v.identifiers[i]);
        ids.push(idj);
        i = i + 1;
    }
    push_field(&mut fs, JsonKey::Identifiers, Json::Arr(ids));
    if v.cvss_vectors.len() > 0 {
        let mut vecs: Vec<Json> = Vec::new();
        let mut k: usize = 0;
        while k < v.cvss_vectors.len()
            invariant
                k <= v.cvss_vectors@.len(),
            decreases v.cvss_vectors@.len() - k,
        {
            let mut cf: Vec<(JsonKey, Json)> = Vec::new();
            push_field(&mut cf, JsonKey::Vendor, Json::Str(v.cvss_vectors[k].vendor.clone()));
            push_field(&mut cf, JsonKey::Vector, Json::Str(v.cvss_vectors[k].vector.clone()));
            vecs.push(Json::Obj(cf));
            k = k + 1;
        }
        push_field(&mut fs, JsonKey::CvssVectors, Json::Arr(vecs));
    }
    if v.links.len() > 0 {
        let mut ls: Vec<Json> = Vec::new();
        let mut k: usize = 0;
        while k < v.links.len()
            invariant
                k <= v.links@.len(),
                ls@.len() == k,
                forall|m: int| 0 <= m < k ==> link_json_ok(v.links@[m], #[trigger] ls@[m]),
            decreases v.links@.len() - k,
        {
            let lj = link_to_json(&v.links[k]);
            ls.push(lj);
            k = k + 1;
        }
        push_field(&mut fs, JsonKey::Links, Json::Arr(ls));
    }
    if v.flags.len() > 0 {
        let mut fl: Vec<Json> = Vec::new();
        let mut k: usize = 0;
        while k < v.flags.len()
            invariant
                k <= v.flags@.len(),
            decreases v.flags@.len() - k,
        {
            let mut ff: Vec<(JsonKey, Json)> = Vec::new();
            push_field(&mut ff, JsonKey::Kind, Json::Str(v.flags[k].kind.label()));
            push_field(&mut ff, JsonKey::Origin, Json::Str(v.flags[k].origin.clone()));
            push_field(&mut ff, JsonKey::Description, Json::Str(v.flags[k].description.clone()));
            fl.push(Json::Obj(ff));
            k = k + 1;
        }
        push_field(&mut fs, JsonKey::Flags, Json::Arr(fl));
    }
    push_field(&mut fs, JsonKey::Location, location_to_json(&v.location));
    Json::Obj(fs)
}

/// Build a vendor object.
pub fn vendor_to_json(x: &report::Vendor) -> (j: Json)
    ensures
        vendor_json_ok(*x, j),
{
    let mut fs: Vec<(JsonKey, Json)> = Vec::new();
    push_field(&mut fs, JsonKey::Name, Json::Str(x.name.clone()));
    Json::Obj(fs)
}

/// Build the analyzer identity object.
pub fn analyzer_to_json(x: &report::Analyzer) -> (j: Json)
    ensures
        tool_json_ok(x.id@, x.name@, x.url, x.vendor, x.version@, j),
{
    let mut fs: Vec<(JsonKey, Json)> = Vec::new();
    push_field(&mut fs, JsonKey::Id, Json::Str(x.id.clone()));
    push_field(&mut fs, JsonKey::Name, Json::Str(x.name.clone()));
    match &x.url {
        Option::Some(u) => push_field(&mut fs, JsonKey::Url, Json::Str(u.clone())),
        Option::None => {},
    }
    push_field(&mut fs, JsonKey::Vendor, vendor_to_json(&x.vendor));
    push_field(&mut fs, JsonKey::Version, Json::Str(x.version.clone()));
    Json::Obj(fs)
}

/// Build the scanner identity object.
pub fn scanner_to_json(x: &report::Scanner) -> (j: Json)
    ensures
        tool_json_ok(x.id@, x.name@, x.url, x.vendor, x.version@, j),
{
    let mut fs: Vec<(JsonKey, Json)> = Vec::new();
    push_field(&mut fs, JsonKey::Id, Json::Str(x.id.clone()));
    push_field(&mut fs, JsonKey::Name, Json::Str(x.name.clone()));
    match &x.url {
        Option::Some(u) => push_field(&mut fs, JsonKey::Url, Json::Str(u.clone())),
        Option::None => {},
    }
    push_field(&mut fs, JsonKey::Vendor, vendor_to_json(&x.vendor));
    push_field(&mut fs, JsonKey::Version, Json::Str(x.version.clone()));
    Json::Obj(fs)
}

/// Build the scan metadata object.
pub fn scan_to_json(x: &report::Scan) -> (j: Json)
    ensures
        scan_json_ok(*x, j),
{
    let mut fs: Vec<(JsonKey, Json)> = Vec::new();
    push_field(&mut fs, JsonKey::Analyzer, analyzer_to_json(&x.analyzer));
    push_field(&mut fs, JsonKey::Scanner, scanner_to_json(&x.scanner));
    push_field(&mut fs, JsonKey::StartTime, Json::Str(x.start_time.clone()));
    push_field(&mut fs, JsonKey::EndTime, Json::Str(x.end_time.clone()));
    push_field(&mut fs, JsonKey::Status, Json::Str(x.status.label()));
    push_field(&mut fs, JsonKey::Kind, Json::Str(x.kind.label()));
    Json::Obj(fs)
}

/// Build a dependency file object.
pub fn dependency_file_to_json(x: &report::DependencyFile) -> (j: Json)
    ensures
        dependency_file_json_ok(*x, j),
{
    let mut fs: Vec<(JsonKey, Json)> = Vec::new();
    push_field(&mut fs, JsonKey::Path, Json::Str(x.path.clone()));
    push_field(&mut fs, JsonKey::PackageManager, Json::Str(x.package_manager.clone()));
    let mut ds: Vec<Json> = Vec::new();
    let mut i: usize = 0;
    while i < x.dependencies.len()
        invariant
            i <= x.dependencies@.len(),
            ds@.len() == i,
            forall|k: int|
                0 <= k < i ==> dependency_json_ok(x.dependencies@[k], #[trigger] ds@[k]),
        decreases x.dependencies@.len() - i,
    {
        let dj = dependency_to_json(&x.dependencies[i]);
        ds.push(dj);
        i = i + 1;
    }
    push_field(&mut fs, JsonKey::Dependencies, Json::Arr(ds));
    Json::Obj(fs)
}

/// Build the whole document tree. The `scan` member appears exactly when
/// the report carries a scan block; nothing is ever written as null.
pub fn report_to_json(x: &report::Report) -> (j: Json)
    ensures
        report_json_ok(*x, j),
{
    let mut fs: Vec<(JsonKey, Json)> = Vec::new();
    push_field(&mut fs, JsonKey::Version, Json::Str(x.version.clone()));
    let mut vs: Vec<Json> = Vec::new();
    let mut i: usize = 0;
    while i < x.vulnerabilities.len()
        invariant
            i <= x.vulnerabilities@.len(),
            vs@.len() == i,
            forall|k: int|
                0 <= k < i ==> vulnerability_json_ok(x.vulnerabilities@[k], #[trigger] vs@[k]),
        decreases x.vulnerabilities@.len() - i,
    {
        let vj = vulnerability_to_json(&x.vulnerabilities[i]);
        vs.push(vj);
        i = i + 1;
    }
    push_field(&mut fs, JsonKey::Vulnerabilities, Json::Arr(vs));
    match &x.scan {
        Option::Some(sc) => push_field(&mut fs, JsonKey::Scan, scan_to_json(sc)),
        Option::None => {},
    }
    let mut dfs: Vec<Json> = Vec::new();
    let mut k: usize = 0;
    while k < x.dependency_files.len()
        invariant
            k <= x.dependency_files@.len(),
            dfs@.len() == k,
            forall|m: int|
                0 <= m < k ==> dependency_file_json_ok(
                    x.dependency_files@[m],
                    #[trigger] dfs@[m],
                ),
        decreases x.dependency_files@.len() - k,
    {
        let fj = dependency_file_to_json(&x.dependency_files[k]);
        dfs.push(fj);
        k = k + 1;
    }
    push_field(&mut fs, JsonKey::DependencyFiles, Json::Arr(dfs));
    Json::Obj(fs)
}

/// A finding normalized from an advisory that names no reference URL gets
/// no `links` member in its document object at all — not an empty list and
/// not a null.
pub proof fn lemma_absent_url_omits_links(
    v: cargo_audit::Vulnerability,
    r: report::Vulnerability,
    j: Json,
)
    requires
        normalized_core(v, r),
        v.advisory.url is None,
        vulnerability_json_ok(r, j),
    ensures
        !has_key(obj_of(j), JsonKey::Links),
{
}

} // verus!
