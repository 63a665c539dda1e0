//! The staged self-update: the decisions between the stages (which release
//! asset to take, whether the node is already up to date, which files to
//! verify and install) and the progress stream they emit. Fetching,
//! downloading, unpacking and file moves are done by the caller, which
//! reports each outcome back.
use vstd::prelude::*;
use vstd::string::StringExecFns;
use rsa::pkcs8::DecodePublicKey;
use rsa::signature::Verifier;
use crate::text::{chars_of, contains_seq, ends_with, parse_unsigned, parsed_unsigned, str_contains, str_ends_with};

verus! {

/// One event of an update stream.
#[derive(Debug)]
pub enum UpdateProgress {
    FetchingRelease,
    Downloading { filename: String },
    Unpacking,
    Verifying,
    Installing,
    Completed { version: String },
    Failed { error: String },
    AlreadyUpToDate { current_version: u32 },
}

/// Outcome of an update.
#[derive(Debug)]
pub struct UpdateResult {
    pub success: bool,
    pub message: String,
    pub new_version: Option<String>,
}

/// A downloadable file of a release.
#[derive(Debug)]
pub struct ReleaseAsset {
    pub name: String,
    pub download_url: String,
}

/// What parsing `s` as a `u32` gives.
pub open spec fn parsed_u32(s: Seq<char>) -> Option<u32> {
    match parsed_unsigned(s, u32::MAX as u64) {
        Some(n) => Some(n as u32),
        None => None,
    }
}

/// Parses a decimal `u32` the way the standard library does.
pub fn parse_u32(s: &str) -> (r: Option<u32>)
    ensures
        r == parsed_u32(s@),
{
    let v = chars_of(s);
    assert(v@.subrange(0, v@.len() as int) =~= s@);
    match parse_unsigned(&v, 0, v.len(), u32::MAX as u64) {
        Some(n) => Some(n as u32),
        None => None,
    }
}

/// A release tag that is a number no greater than the running version.
pub open spec fn up_to_date(tag: Seq<char>, current_version: u32) -> bool {
    parsed_u32(tag) is Some && parsed_u32(tag)->Some_0 <= current_version
}

/// Index of the first asset whose name holds the platform token.
pub open spec fn asset_choice(assets: Seq<ReleaseAsset>, token: Seq<char>) -> Option<int> {
    if exists|i: int| 0 <= i < assets.len() && contains_seq(assets[i].name@, token) {
        Some(
            choose|i: int|
                0 <= i < assets.len() && contains_seq(assets[i].name@, token) && forall|j: int|
                    0 <= j < i ==> !contains_seq(#[trigger] assets[j].name@, token),
        )
    } else {
        None
    }
}

/// Picks the first asset whose name holds the platform token.
pub fn select_asset(assets: &Vec<ReleaseAsset>, token: &str) -> (r: Option<usize>)
    ensures
        r is None ==> forall|i: int| 0 <= i < assets@.len() ==> !contains_seq(#[trigger] assets@[i].name@, token@),
        r is Some ==> r->Some_0 < assets@.len() && contains_seq(
            assets@[r->Some_0 as int].name@,
            token@,
        ) && forall|j: int| 0 <= j < r->Some_0 ==> !contains_seq(#[trigger] assets@[j].name@, token@),
{
    let mut i: usize = 0;
    while i < assets.len()
        invariant
            i <= assets@.len(),
            forall|j: int| 0 <= j < i ==> !contains_seq(#[trigger] assets@[j].name@, token@),
        decreases assets.len() - i,
    {
        if str_contains(assets[i].name.as_str(), token) {
            return Some(i);
        }
        i = i + 1;
    }
    None
}

/// Signature file names looked for first, in order.
pub const SIGNATURE_NAMES: [&'static str; 2] = ["puppynet.sig", "puppynet.exe.sig"];

/// A file name with the `.sig` extension (a bare `.sig` has none).
pub open spec fn is_signature_name(name: Seq<char>) -> bool {
    name.len() > 4 && ends_with(name, ".sig"@)
}

/// Index of the first file in `files` named `name`.
fn position_of(files: &Vec<String>, name: &str) -> (r: Option<usize>)
    ensures
        r is None ==> forall|i: int| 0 <= i < files@.len() ==> (#[trigger] files@[i])@ != name@,
        r is Some ==> r->Some_0 < files@.len() && files@[r->Some_0 as int]@ == name@,
{
    let target = String::from_str(name);
    let mut i: usize = 0;
    while i < files.len()
        invariant
            i <= files@.len(),
            target@ == name@,
            forall|j: int| 0 <= j < i ==> (#[trigger] files@[j])@ != name@,
        decreases files.len() - i,
    {
        if files[i] == target {
            return Some(i);
        }
        i = i + 1;
    }
    None
}

/// Picks the signature among the files of the app directory: a known name
/// first, else any file with the `.sig` extension.
pub fn select_signature(files: &Vec<String>) -> (r: Option<usize>)
    ensures
        r is Some ==> r->Some_0 < files@.len() && (files@[r->Some_0 as int]@ == "puppynet.sig"@
            || files@[r->Some_0 as int]@ == "puppynet.exe.sig"@ || is_signature_name(
            files@[r->Some_0 as int]@,
        )),
        (exists|i: int| 0 <= i < files@.len() && (#[trigger] files@[i])@ == "puppynet.sig"@) ==> r
            is Some && files@[r->Some_0 as int]@ == "puppynet.sig"@,
        r is None ==> forall|i: int|
            0 <= i < files@.len() ==> !is_signature_name(#[trigger] files@[i]@),
{
    proof {
        reveal_strlit("puppynet.sig");
        reveal_strlit("puppynet.exe.sig");
        reveal_strlit(".sig");
    }
    let known = position_of(files, "puppynet.sig");
    if let Some(i) = known {
        return Some(i);
    }
    assert(forall|j: int| 0 <= j < files@.len() ==> (#[trigger] files@[j])@ != "puppynet.sig"@);
    if let Some(i) = position_of(files, "puppynet.exe.sig") {
        return Some(i);
    }
    let mut i: usize = 0;
    while i < files.len()
        invariant
            i <= files@.len(),
            forall|j: int| 0 <= j < i ==> !is_signature_name(#[trigger] files@[j]@),
            forall|j: int| 0 <= j < files@.len() ==> (#[trigger] files@[j])@ != "puppynet.sig"@,
        decreases files.len() - i,
    {
        let name = files[i].as_str();
        if chars_of(name).len() > 4 && str_ends_with(name, ".sig") {
            return Some(i);
        }
        i = i + 1;
    }
    None
}

/// Where an update run stands.
#[derive(Debug, Clone, Copy, PartialEq, Eq, Structural)]
pub enum UpdateStage {
    FetchingRelease,
    Downloading,
    Unpacking,
    Verifying,
    Installing,
    Done,
}

/// What the caller does next.
#[derive(Debug)]
pub enum UpdateAction {
    /// Download `url` into the staging file `filename`.
    Download { url: String, filename: String },
    /// Extract `archive` into the app directory: flattened for a zip,
    /// keeping relative paths for a gzip tarball.
    Unpack { archive: String, zip: bool },
    /// List the file names of the app directory and report them.
    Locate,
    /// Check the signature file against the binary.
    Verify { binary: String, signature: String },
    /// Move the binary into the install directory; delete it and its
    /// signature from staging.
    Install { binary: String, signature: String },
    /// The run is over.
    Finish(UpdateResult),
}

/// Events to publish, then the action to perform.
#[derive(Debug)]
pub struct UpdateStep {
    pub events: Vec<UpdateProgress>,
    pub action: UpdateAction,
}

pub const SIGNATURE_FAILED: &'static str = "Signature verification failed";

pub const UP_TO_DATE: &'static str = "Already up to date";

pub const SIGNATURE_MISSING: &'static str =
    "Signature file not found: tried puppynet.sig, puppynet.exe.sig and any .sig file. Directory contains: ";

/// The names of `files`, separated by ", ".
pub open spec fn file_listing(files: Seq<String>) -> Seq<char>
    decreases files.len(),
{
    if files.len() == 0 {
        Seq::empty()
    } else if files.len() == 1 {
        files[0]@
    } else {
        file_listing(files.drop_last()) + ", "@ + files.last()@
    }
}

/// Writes the names of `files`, separated by ", ".
pub fn list_files(files: &Vec<String>) -> (r: String)
    ensures
        r@ == file_listing(files@),
{
    let mut out = String::new();
    let mut i: usize = 0;
    while i < files.len()
        invariant
            i <= files@.len(),
            out@ == file_listing(files@.subrange(0, i as int)),
        decreases files.len() - i,
    {
        let ghost p = files@.subrange(0, i + 1);
        assert(p.drop_last() =~= files@.subrange(0, i as int));
        assert(p.last() == files@[i as int]);
        if i > 0 {
            out.append(", ");
        }
        out.append(files[i].as_str());
        assert(out@ =~= file_listing(p));
        i = i + 1;
    }
    assert(files@.subrange(0, files@.len() as int) =~= files@);
    out
}

/// Some file of `files` is named `name`.
pub open spec fn names_file(files: Seq<String>, name: Seq<char>) -> bool {
    exists|i: int| 0 <= i < files.len() && (#[trigger] files[i])@ == name
}

/// One update run.
pub struct UpdateRun {
    stage: UpdateStage,
    requested: Option<String>,
    current_version: u32,
    platform: String,
    binary: String,
    tag: String,
    archive: String,
    signature: String,
}

/// `step` ends the run with `error`: one Failed event and a failed result.
pub open spec fn ends_failed(step: UpdateStep, error: Seq<char>) -> bool {
    &&& step.events@.len() == 1
    &&& step.events@[0] is Failed
    &&& step.events@[0]->Failed_error@ == error
    &&& step.action is Finish
    &&& !step.action->Finish_0.success
    &&& step.action->Finish_0.message@ == error
    &&& step.action->Finish_0.new_version is None
}

impl UpdateRun {
    pub closed spec fn spec_stage(&self) -> UpdateStage {
        self.stage
    }

    pub closed spec fn spec_requested(&self) -> Option<Seq<char>> {
        match self.requested {
            Some(v) => Some(v@),
            None => None,
        }
    }

    pub closed spec fn spec_current_version(&self) -> u32 {
        self.current_version
    }

    pub closed spec fn spec_platform(&self) -> Seq<char> {
        self.platform@
    }

    pub closed spec fn spec_binary(&self) -> Seq<char> {
        self.binary@
    }

    pub closed spec fn spec_tag(&self) -> Seq<char> {
        self.tag@
    }

    pub closed spec fn spec_archive(&self) -> Seq<char> {
        self.archive@
    }

    /// Starts a run for `requested` (the latest release when absent) on a
    /// node running `current_version`; `platform` is the token that asset
    /// names carry ("linux", "macos", "windows") and `binary` the name of
    /// the executable in the archive. The first event is FetchingRelease.
    pub fn begin(requested: Option<String>, current_version: u32, platform: String, binary: String) -> (r: (
        UpdateRun,
        UpdateProgress,
    ))
        ensures
            r.0.spec_stage() == UpdateStage::FetchingRelease,
            r.0.spec_requested() == (match requested {
                Some(v) => Some(v@),
                None => None::<Seq<char>>,
            }),
            r.0.spec_current_version() == current_version,
            r.0.spec_platform() == platform@,
            r.0.spec_binary() == binary@,
            r.1 is FetchingRelease,
    {
        (
            UpdateRun {
                stage: UpdateStage::FetchingRelease,
                requested,
                current_version,
                platform,
                binary,
                tag: String::new(),
                archive: String::new(),
                signature: String::new(),
            },
            UpdateProgress::FetchingRelease,
        )
    }

    pub fn stage(&self) -> (r: UpdateStage)
        ensures
            r == self.spec_stage(),
    {
        self.stage
    }

    /// The release to fetch: a tag, or none for the latest.
    pub fn requested(&self) -> (r: Option<&String>)
        ensures
            r is None <==> self.spec_requested() is None,
            r is Some ==> self.spec_requested() == Some(r->Some_0@),
    {
        match &self.requested {
            Some(v) => Some(v),
            None => None,
        }
    }

    /// The binary, platform, requested version and running version are
    /// those of `other`.
    pub open spec fn keeps_settings(&self, other: UpdateRun) -> bool {
        &&& self.spec_binary() == other.spec_binary()
        &&& self.spec_platform() == other.spec_platform()
        &&& self.spec_requested() == other.spec_requested()
        &&& self.spec_current_version() == other.spec_current_version()
    }

    /// Any stage failed with `error`: the run ends with a Failed event.
    /// Nothing follows the end of a run.
    pub fn on_error(&mut self, error: String) -> (r: UpdateStep)
        requires
            old(self).spec_stage() != UpdateStage::Done,
        ensures
            final(self).keeps_settings(*old(self)),
            ends_failed(r, error@),
            final(self).spec_stage() == UpdateStage::Done,
            final(self).spec_tag() == old(self).spec_tag(),
            final(self).spec_binary() == old(self).spec_binary(),
            final(self).spec_archive() == old(self).spec_archive(),
            final(self).spec_platform() == old(self).spec_platform(),
    {
        self.stage = UpdateStage::Done;
        let message = error.clone();
        let mut events: Vec<UpdateProgress> = Vec::new();
        events.push(UpdateProgress::Failed { error });
        UpdateStep {
            events,
            action: UpdateAction::Finish(UpdateResult { success: false, message, new_version: None }),
        }
    }

    /// The release metadata arrived. Without a requested version, a
    /// numeric tag no greater than the running version ends the run as up
    /// to date. Otherwise the first asset for the platform is downloaded;
    /// none ends the run failed.
    pub fn on_release(&mut self, tag: String, assets: &Vec<ReleaseAsset>) -> (r: UpdateStep)
        requires
            old(self).spec_stage() == UpdateStage::FetchingRelease,
        ensures
            final(self).keeps_settings(*old(self)),
            final(self).spec_tag() == tag@,
            old(self).spec_requested() is None && up_to_date(tag@, old(self).spec_current_version())
                ==> final(self).spec_stage() == UpdateStage::Done && r.events@.len() == 1
                && r.events@[0] == (UpdateProgress::AlreadyUpToDate {
                current_version: old(self).spec_current_version(),
            }) && r.action is Finish && r.action->Finish_0.success
                && r.action->Finish_0.message@ == UP_TO_DATE@
                && r.action->Finish_0.new_version is None,
            !(old(self).spec_requested() is None && up_to_date(
                tag@,
                old(self).spec_current_version(),
            )) ==> {
                match asset_choice(assets@, old(self).spec_platform()) {
                    None => final(self).spec_stage() == UpdateStage::Done && ends_failed(
                        r,
                        "no asset found for os: "@ + old(self).spec_platform(),
                    ),
                    Some(i) => final(self).spec_stage() == UpdateStage::Downloading
                        && final(self).spec_archive() == assets@[i].name@ && r.events@.len() == 1
                        && r.events@[0] is Downloading && r.events@[0]->Downloading_filename@
                        == assets@[i].name@ && r.action is Download
                        && r.action->Download_url@ == assets@[i].download_url@
                        && r.action->Download_filename@ == assets@[i].name@,
                }
            },
    {
        let numeric = parse_u32(tag.as_str());
        self.tag = tag;
        if self.requested.is_none() {
            if let Some(n) = numeric {
                if n <= self.current_version {
                    self.stage = UpdateStage::Done;
                    let mut events: Vec<UpdateProgress> = Vec::new();
                    events.push(UpdateProgress::AlreadyUpToDate { current_version: self.current_version });
                    return UpdateStep {
                        events,
                        action: UpdateAction::Finish(
                            UpdateResult {
                                success: true,
                                message: String::from_str(UP_TO_DATE),
                                new_version: None,
                            },
                        ),
                    };
                }
            }
        }
        match select_asset(assets, self.platform.as_str()) {
            None => {
                proof {
                    assert(!exists|i: int|
                        0 <= i < assets@.len() && contains_seq(assets@[i].name@, self.platform@));
                }
                let error = String::from_str("no asset found for os: ").concat(self.platform.as_str());
                self.on_error(error)
            },
            Some(i) => {
                proof {
                    let k = asset_choice(assets@, self.platform@)->Some_0;
                    assert(0 <= k < assets@.len() && contains_seq(assets@[k].name@, self.platform@));
                    if k < i {
                        assert(!contains_seq(assets@[k].name@, self.platform@));
                    }
                    if i < k {
                        assert(!contains_seq(assets@[i as int].name@, self.platform@));
                    }
                    assert(k == i);
                }
                let asset = &assets[i];
                self.archive = asset.name.clone();
                self.stage = UpdateStage::Downloading;
                let mut events: Vec<UpdateProgress> = Vec::new();
                events.push(UpdateProgress::Downloading { filename: asset.name.clone() });
                UpdateStep {
                    events,
                    action: UpdateAction::Download {
                        url: asset.download_url.clone(),
                        filename: asset.name.clone(),
                    },
                }
            },
        }
    }

    /// The asset was downloaded: unpack it, as a zip when its name ends in
    /// `.zip`, else as a gzip tarball.
    pub fn on_downloaded(&mut self) -> (r: UpdateStep)
        requires
            old(self).spec_stage() == UpdateStage::Downloading,
        ensures
            final(self).keeps_settings(*old(self)),
            final(self).spec_stage() == UpdateStage::Unpacking,
            final(self).spec_tag() == old(self).spec_tag(),
            final(self).spec_archive() == old(self).spec_archive(),
            r.events@.len() == 1 && r.events@[0] is Unpacking,
            r.action is Unpack && r.action->Unpack_archive@ == old(self).spec_archive()
                && r.action->Unpack_zip == ends_with(old(self).spec_archive(), ".zip"@),
    {
        self.stage = UpdateStage::Unpacking;
        let zip = str_ends_with(self.archive.as_str(), ".zip");
        let mut events: Vec<UpdateProgress> = Vec::new();
        events.push(UpdateProgress::Unpacking);
        UpdateStep { events, action: UpdateAction::Unpack { archive: self.archive.clone(), zip } }
    }

    /// The archive was unpacked: verification starts by listing the app
    /// directory.
    pub fn on_unpacked(&mut self) -> (r: UpdateStep)
        requires
            old(self).spec_stage() == UpdateStage::Unpacking,
        ensures
            final(self).keeps_settings(*old(self)),
            final(self).spec_stage() == UpdateStage::Verifying,
            final(self).spec_tag() == old(self).spec_tag(),
            final(self).spec_binary() == old(self).spec_binary(),
            r.events@.len() == 1 && r.events@[0] is Verifying,
            r.action is Locate,
    {
        self.stage = UpdateStage::Verifying;
        let mut events: Vec<UpdateProgress> = Vec::new();
        events.push(UpdateProgress::Verifying);
        UpdateStep { events, action: UpdateAction::Locate }
    }

    /// The app directory holds `files`: verify the binary against its
    /// signature file; a missing binary or signature ends the run failed.
    pub fn on_located(&mut self, files: &Vec<String>) -> (r: UpdateStep)
        requires
            old(self).spec_stage() == UpdateStage::Verifying,
        ensures
            final(self).keeps_settings(*old(self)),
            final(self).spec_tag() == old(self).spec_tag(),
            final(self).spec_binary() == old(self).spec_binary(),
            !names_file(files@, old(self).spec_binary()) ==> final(self).spec_stage()
                == UpdateStage::Done && ends_failed(r, "Binary not found: "@ + old(self).spec_binary()),
            names_file(files@, old(self).spec_binary()) && (forall|i: int|
                0 <= i < files@.len() ==> !is_signature_name(#[trigger] files@[i]@))
                ==> final(self).spec_stage() == UpdateStage::Done && ends_failed(
                r,
                SIGNATURE_MISSING@ + file_listing(files@),
            ),
            names_file(files@, old(self).spec_binary()) && (exists|i: int|
                0 <= i < files@.len() && is_signature_name(#[trigger] files@[i]@)) ==> {
                &&& final(self).spec_stage() == UpdateStage::Verifying
                &&& r.events@.len() == 0
                &&& r.action is Verify
                &&& r.action->Verify_binary@ == old(self).spec_binary()
                &&& names_file(files@, r.action->Verify_signature@)
                &&& is_signature_name(r.action->Verify_signature@)
                &&& names_file(files@, "puppynet.sig"@) ==> r.action->Verify_signature@ == "puppynet.sig"@
            },
    {
        proof {
            reveal_strlit("puppynet.sig");
            reveal_strlit("puppynet.exe.sig");
            reveal_strlit(".sig");
        }
        if position_of(files, self.binary.as_str()).is_none() {
            let error = String::from_str("Binary not found: ").concat(self.binary.as_str());
            return self.on_error(error);
        }
        match select_signature(files) {
            None => self.on_error(String::from_str(SIGNATURE_MISSING).concat(list_files(files).as_str())),
            Some(i) => {
                proof {
                    let n = files@[i as int]@;
                    if n == "puppynet.sig"@ || n == "puppynet.exe.sig"@ {
                        assert(n.subrange(n.len() - 4, n.len() as int) =~= ".sig"@);
                    }
                }
                self.signature = files[i].clone();
                UpdateStep {
                    events: Vec::new(),
                    action: UpdateAction::Verify {
                        binary: self.binary.clone(),
                        signature: files[i].clone(),
                    },
                }
            },
        }
    }

    /// The signature check came back. A binary that does not match its
    /// signature is never installed: the run ends failed. A valid one is
    /// installed.
    pub fn on_verified(&mut self, valid: bool) -> (r: UpdateStep)
        requires
            old(self).spec_stage() == UpdateStage::Verifying,
        ensures
            final(self).keeps_settings(*old(self)),
            final(self).spec_tag() == old(self).spec_tag(),
            !valid ==> final(self).spec_stage() == UpdateStage::Done && ends_failed(
                r,
                SIGNATURE_FAILED@,
            ),
            valid ==> final(self).spec_stage() == UpdateStage::Installing && r.events@.len() == 1
                && r.events@[0] is Installing && r.action is Install
                && r.action->Install_binary@ == old(self).spec_binary(),
    {
        if !valid {
            return self.on_error(String::from_str(SIGNATURE_FAILED));
        }
        self.stage = UpdateStage::Installing;
        let mut events: Vec<UpdateProgress> = Vec::new();
        events.push(UpdateProgress::Installing);
        UpdateStep {
            events,
            action: UpdateAction::Install {
                binary: self.binary.clone(),
                signature: self.signature.clone(),
            },
        }
    }

    /// The binary was installed: the run completes with the release tag.
    pub fn on_installed(&mut self) -> (r: UpdateStep)
        requires
            old(self).spec_stage() == UpdateStage::Installing,
        ensures
            final(self).keeps_settings(*old(self)),
            final(self).spec_stage() == UpdateStage::Done,
            r.events@.len() == 1 && r.events@[0] is Completed && r.events@[0]->Completed_version@
                == old(self).spec_tag(),
            r.action is Finish && r.action->Finish_0.success && r.action->Finish_0.message@
                == "Updated to version "@ + old(self).spec_tag() && r.action->Finish_0.new_version
                is Some && r.action->Finish_0.new_version->Some_0@ == old(self).spec_tag(),
    {
        self.stage = UpdateStage::Done;
        let mut events: Vec<UpdateProgress> = Vec::new();
        events.push(UpdateProgress::Completed { version: self.tag.clone() });
        UpdateStep {
            events,
            action: UpdateAction::Finish(
                UpdateResult {
                    success: true,
                    message: String::from_str("Updated to version ").concat(self.tag.as_str()),
                    new_version: Some(self.tag.clone()),
                },
            ),
        }
    }
}

/// Result reported to the peer that asked for a remote update, from the
/// peer's answer to the start request.
pub fn update_result_of(started: Result<(), String>) -> (r: UpdateResult)
    ensures
        started is Ok ==> r.success && r.message@ == "Update started"@ && r.new_version is None,
        started is Err ==> !r.success && r.message@ == started->Err_0@ && r.new_version is None,
{
    match started {
        Ok(()) => UpdateResult {
            success: true,
            message: String::from_str("Update started"),
            new_version: None,
        },
        Err(err) => UpdateResult { success: false, message: err, new_version: None },
    }
}

/// The RSA public key written in `key_pem` (PEM, SubjectPublicKeyInfo)
/// accepts `signature` as a PKCS#1 v1.5 signature of `data` with SHA-256.
pub uninterp spec fn pkcs1v15_sha256_accepts(key_pem: Seq<char>, data: Seq<u8>, signature: Seq<u8>) -> bool;

/// `key_pem` is a PEM-encoded RSA public key (SubjectPublicKeyInfo).
pub uninterp spec fn rsa_pem_key_parses(key_pem: Seq<char>) -> bool;

/// Relies on rsa's `RsaPublicKey::from_public_key_pem` to read the key
/// (none when it does not parse; `Signature::try_from` never fails) and on
/// `pkcs1v15::VerifyingKey::<Sha256>::verify` to check the signature.
#[verifier::external_body]
fn rsa_pkcs1v15_verify(key_pem: &str, data: &[u8], signature: &[u8]) -> (r: Option<bool>)
    ensures
        r is None <==> !rsa_pem_key_parses(key_pem@),
        r is Some ==> r->Some_0 == pkcs1v15_sha256_accepts(key_pem@, data@, signature@),
{
    let key = rsa::RsaPublicKey::from_public_key_pem(key_pem).ok()?;
    let verifying_key = rsa::pkcs1v15::VerifyingKey::<sha2::Sha256>::new(key);
    let sig = rsa::pkcs1v15::Signature::try_from(signature).ok()?;
    Some(verifying_key.verify(data, &sig).is_ok())
}

/// Why a signature could not be checked.
#[derive(Debug, PartialEq, Eq, Structural)]
pub enum SignatureError {
    /// The public key is not a PEM-encoded RSA public key.
    InvalidKey,
}

/// Checks the downloaded binary against its signature file with the
/// release public key.
pub fn verify_signature(public_key_pem: &str, binary: &[u8], signature: &[u8]) -> (r: Result<
    bool,
    SignatureError,
>)
    ensures
        r is Ok ==> r->Ok_0 == pkcs1v15_sha256_accepts(public_key_pem@, binary@, signature@),
        r is Err <==> !rsa_pem_key_parses(public_key_pem@),
        r is Err ==> r == Err::<bool, SignatureError>(SignatureError::InvalidKey),
{
    match rsa_pkcs1v15_verify(public_key_pem, binary, signature) {
        Some(ok) => Ok(ok),
        None => Err(SignatureError::InvalidKey),
    }
}

} // verus!
