//! What the interface records around the work it hands out: queued
//! downloads, whole-repository downloads and hash checks.

use crate::models::{DownloadRegistry, FocusedPane, PopupMode, QuantizationInfo};
use crate::text::decimal;
use crate::registry::{complete_of, incomplete_of};
use crate::ui::{auth_error_prefix, downloadable_indices, repository_files, welcome_message, App};
use vstd::prelude::*;

verus! {

fn put(out: &mut String, s: &str)
    ensures
        final(out)@ == old(out)@ + s@,
{
    out.append(s);
}

fn put_dec(out: &mut String, n: u64)
    ensures
        final(out)@ == old(out)@ + decimal(n as nat),
{
    let d = crate::text::decimal_string(n);
    out.append(d.as_str());
}

/// The file that a hash check is for: the selected file when the file
/// list has the focus and a file in range is selected, else the first
/// file of the selected group (a model and a group in range selected).
pub open spec fn check_target(a: App) -> Option<QuantizationInfo> {
    match (a.list_state, a.quant_list_state) {
        (Some(m), Some(g)) => if m < a.models@.len() && g < a.quantizations@.len() {
            let files = a.quantizations@[g as int].files@;
            if a.focused_pane == FocusedPane::QuantizationFiles && a.quant_file_list_state is Some
                && a.quant_file_list_state->0 < files.len() {
                Some(files[a.quant_file_list_state->0 as int])
            } else if files.len() > 0 {
                Some(files[0])
            } else {
                None
            }
        } else {
            None
        },
        _ => None,
    }
}

/// What a hash check of the selection asks for, as a status message or the
/// file's name, local path and expected hash.
pub open spec fn check_request(a: App) -> Option<Result<(Seq<char>, Seq<char>, Seq<char>), Seq<char>>> {
    match check_target(a) {
        Some(f) => if !a.complete_downloads.contents().dom().contains(f.filename@) {
            Some(Err("File "@ + f.filename@ + " is not marked as downloaded"@))
        } else {
            let d = a.complete_downloads.contents()[f.filename@];
            match d.expected_sha256 {
                Some(h) => Some(Ok((f.filename@, d.local_path@, h@))),
                None => Some(Err("No SHA256 hash available for "@ + f.filename@ + ", cannot verify"@)),
            }
        },
        None => None,
    }
}

impl App {
    /// A hash check of the selection: the file's name, local path and
    /// expected hash when it was downloaded with a known hash; else the
    /// reason goes to the status line and nothing is checked.
    pub fn check_selection(&mut self) -> (r: Option<(String, String, String)>)
        requires
            old(self).complete_downloads.wf(),
        ensures
            match check_request(*old(self)) {
                Some(Ok((name, path, hash))) => {
                    &&& r matches Some(t) && t.0@ == name && t.1@ == path && t.2@ == hash
                    &&& *final(self) == *old(self)
                },
                Some(Err(msg)) => {
                    &&& r is None
                    &&& final(self).status@ == msg
                    &&& (*final(self) == App { status: final(self).status, ..*old(self) })
                },
                None => r is None && *final(self) == *old(self),
            },
    {
        let (m, g) = match (self.list_state, self.quant_list_state) {
            (Some(m), Some(g)) => (m, g),
            _ => return None,
        };
        if m >= self.models.len() || g >= self.quantizations.len() {
            return None;
        }
        let files = &self.quantizations[g].files;
        let k: usize = if self.focused_pane == FocusedPane::QuantizationFiles && self.quant_file_list_state.is_some()
            && self.quant_file_list_state.unwrap() < files.len() {
            self.quant_file_list_state.unwrap()
        } else if files.len() > 0 {
            0
        } else {
            return None;
        };
        let name = files[k].filename.clone();
        match self.complete_downloads.get(name.as_str()) {
            None => {
                let mut s = String::from_str("File ");
                put(&mut s, name.as_str());
                put(&mut s, " is not marked as downloaded");
                self.status = s;
                None
            },
            Some(d) => match &d.expected_sha256 {
                Some(h) => Some((name, d.local_path.clone(), h.clone())),
                None => {
                    let mut s = String::from_str("No SHA256 hash available for ");
                    put(&mut s, name.as_str());
                    put(&mut s, ", cannot verify");
                    self.status = s;
                    None
                },
            },
        }
    }

    /// The file to check is not at its recorded path.
    pub fn check_file_missing(&mut self, path: &str)
        ensures
            final(self).status@ == "File not found: "@ + path@,
            final(self).error matches Some(e) && e@ == "File marked as downloaded but not found at "@ + path@,
            (*final(self) == App { status: final(self).status, error: final(self).error, ..*old(self) }),
    {
        let mut s = String::from_str("File not found: ");
        put(&mut s, path);
        self.status = s;
        let mut e = String::from_str("File marked as downloaded but not found at ");
        put(&mut e, path);
        self.error = Some(e);
    }

    /// The file was handed to the hash checker.
    pub fn check_queued(&mut self, filename: &str)
        ensures
            final(self).status@ == "Queued "@ + filename@ + " for verification"@,
            (*final(self) == App { status: final(self).status, ..*old(self) }),
    {
        let mut s = String::from_str("Queued ");
        put(&mut s, filename);
        put(&mut s, " for verification");
        self.status = s;
    }

    /// The download path was refused for the first selected file.
    pub fn record_invalid_path(&mut self, reason: &str)
        ensures
            final(self).error matches Some(e) && e@ == "Invalid path: "@ + reason@,
            final(self).status@ == "Download cancelled due to invalid path"@,
            (*final(self) == App { error: final(self).error, status: final(self).status, ..*old(self) }),
    {
        let mut e = String::from_str("Invalid path: ");
        put(&mut e, reason);
        self.error = Some(e);
        self.status = String::from_str("Download cancelled due to invalid path");
    }

    /// The path of one file was refused; the others go on.
    pub fn record_invalid_filename(&mut self, filename: &str, reason: &str)
        ensures
            final(self).error matches Some(e) && e@ == "Invalid filename '"@ + filename@ + "': "@ + reason@,
            (*final(self) == App { error: final(self).error, ..*old(self) }),
    {
        let mut e = String::from_str("Invalid filename '");
        put(&mut e, filename);
        put(&mut e, "': ");
        put(&mut e, reason);
        self.error = Some(e);
    }

    /// After `sent` of the `files` selected files (the first named `first`)
    /// were queued for the model directory `dir`: which download started,
    /// or that none did.
    pub fn record_queued(&mut self, first: &str, dir: &str, files: usize, sent: usize)
        ensures
            sent > 0 && files > 1 ==> final(self).status@ == "Queued "@ + decimal(files as nat) + " parts of "@ + first@
                + " to "@ + dir@ && (*final(self) == App { status: final(self).status, ..*old(self) }),
            sent > 0 && files <= 1 ==> final(self).status@ == "Starting download of "@ + first@ + " to "@ + dir@ && (
            *final(self) == App { status: final(self).status, ..*old(self) }),
            sent == 0 ==> (final(self).error matches Some(e) && e@ == "Failed to start download"@) && (*final(self)
                == App { error: final(self).error, ..*old(self) }),
    {
        if sent > 0 {
            if files > 1 {
                let mut s = String::from_str("Queued ");
                put_dec(&mut s, files as u64);
                put(&mut s, " parts of ");
                put(&mut s, first);
                put(&mut s, " to ");
                put(&mut s, dir);
                self.status = s;
            } else {
                let mut s = String::from_str("Starting download of ");
                put(&mut s, first);
                put(&mut s, " to ");
                put(&mut s, dir);
                self.status = s;
            }
        } else {
            self.error = Some(String::from_str("Failed to start download"));
        }
    }

    /// The files of a whole-repository download of the selected model: its
    /// id and the indices of the downloadable files; none when no model is
    /// selected or its metadata is not loaded, or (with the error shown)
    /// when it has no downloadable file.
    pub fn repository_selection(&mut self) -> (r: Option<(String, Vec<usize>)>)
        ensures
            match (old(self).list_state, old(self).model_metadata) {
                (Some(i), Some(meta)) => if i < old(self).models@.len() {
                    if downloadable_indices(meta.siblings@).len() > 0 {
                        &&& r matches Some(t) && t.0@ == old(self).models@[i as int].id@ && t.1@ == downloadable_indices(
                            meta.siblings@,
                        )
                        &&& *final(self) == *old(self)
                    } else {
                        &&& r is None
                        &&& final(self).error matches Some(e) && e@ == "No files to download in this repository"@
                        &&& (*final(self) == App { error: final(self).error, ..*old(self) })
                    }
                } else {
                    r is None && *final(self) == *old(self)
                },
                _ => r is None && *final(self) == *old(self),
            },
    {
        let i = match self.list_state {
            Some(i) => i,
            None => return None,
        };
        if i >= self.models.len() {
            return None;
        }
        let files = match &self.model_metadata {
            Some(meta) => repository_files(meta),
            None => return None,
        };
        if files.len() == 0 {
            self.error = Some(String::from_str("No files to download in this repository"));
            return None;
        }
        Some((self.models[i].id.clone(), files))
    }

    /// After `sent` files of repository `model_id` were queued for `dir`.
    pub fn record_repository_queued(&mut self, model_id: &str, dir: &str, sent: usize)
        ensures
            sent > 0 ==> final(self).status@ == "Queued "@ + decimal(sent as nat) + " files from "@ + model_id@ + " to "@
                + dir@ && (*final(self) == App { status: final(self).status, ..*old(self) }),
            sent == 0 ==> (final(self).error matches Some(e) && e@ == "Failed to start downloads"@) && (*final(self)
                == App { error: final(self).error, ..*old(self) }),
    {
        if sent > 0 {
            let mut s = String::from_str("Queued ");
            put_dec(&mut s, sent as u64);
            put(&mut s, " files from ");
            put(&mut s, model_id);
            put(&mut s, " to ");
            put(&mut s, dir);
            self.status = s;
        } else {
            self.error = Some(String::from_str("Failed to start downloads"));
        }
    }
}

/// The message by which a download task reports that `model_id` needs
/// authentication (the status channel's protocol).
pub fn auth_error_message(model_id: &str) -> (r: String)
    ensures
        r@ == auth_error_prefix() + model_id@,
{
    let mut s = String::from_str("AUTH_ERROR:");
    put(&mut s, model_id);
    s
}

impl App {
    /// Start of the interface: the downloads taken from the registry as at
    /// start-up (the resume offer included), running, with the welcome
    /// message.
    pub fn start(&mut self, registry: &DownloadRegistry)
        ensures
            final(self).running,
            final(self).status@ == welcome_message(),
            final(self).incomplete_downloads@ == incomplete_of(registry.downloads@),
            final(self).complete_downloads.wf(),
            final(self).complete_downloads.contents() == complete_of(registry.downloads@),
            (*final(self) == App {
                running: true,
                status: final(self).status,
                incomplete_downloads: final(self).incomplete_downloads,
                complete_downloads: final(self).complete_downloads,
                popup_mode: if incomplete_of(registry.downloads@).len() > 0 {
                    PopupMode::ResumeDownload
                } else {
                    old(self).popup_mode
                },
                ..*old(self)
            }),
    {
        self.scan_incomplete_downloads(registry);
        self.running = true;
        self.status = String::from_str("Welcome! Press '/' to search for models");
    }
}

} // verus!
