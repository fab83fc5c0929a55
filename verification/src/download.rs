//! The fetching of blobs, as far as it is decided here: the address of a
//! blob, what to do with an answer or the lack of one, where to keep a blob,
//! and the sequence that a blob holds.

use vstd::prelude::*;
use vstd::string::StringExecFns;
use crate::arith::digit_char;
use crate::blob_util::{BlobError, parse_str_to_blob_data, spec_blob_data, trimmed};
use crate::dump::option_text;
use crate::felt::{Felt, values};
use crate::transform::{Transformer, TransformerView, blob_points, spec_ifft};

verus! {

/// How often a fetch is tried.
pub const MAX_RETRIES: usize = 5;

/// The seconds to wait after a fetch that failed.
pub const FAILED_FETCH_RETRY_INTERVAL_S: u64 = 10;

/// How a try to fetch ended.
#[derive(Debug, Clone, Copy, PartialEq, Eq, Structural)]
pub enum FetchEvent {
    /// The server answered with a status.
    Status(u16),
    /// No answer came.
    Failed,
}

/// What to do after a try to fetch.
#[derive(Debug, Clone, Copy, PartialEq, Eq, Structural)]
pub enum FetchAction {
    /// Take the answer.
    Accept,
    /// Give up on a status that no further try will mend.
    Reject(u16),
    /// Wait, then try again.
    Retry { wait_s: u64 },
    /// Wait, then give up.
    GiveUp { wait_s: u64 },
}

/// The tries of one fetch.
#[derive(Debug, Clone, Copy, PartialEq, Eq, Structural)]
pub struct Retry {
    /// The number of the try that is under way, from 1 on.
    pub attempt: usize,
}

impl Retry {
    /// The decision after the try `attempt` ended with `event`, and the
    /// number of the try that follows. A status below 200 ends the fetch
    /// at once, one below 400 is taken, and any other as well as no answer
    /// is waited out and tried again, as long as tries are left.
    pub open spec fn spec_decide(attempt: usize, event: FetchEvent) -> (FetchAction, usize) {
        match event {
            FetchEvent::Status(status) if status < 200 => (FetchAction::Reject(status), attempt),
            FetchEvent::Status(status) if status < 400 => (FetchAction::Accept, attempt),
            _ => if attempt < MAX_RETRIES {
                (
                    FetchAction::Retry { wait_s: FAILED_FETCH_RETRY_INTERVAL_S },
                    (attempt + 1) as usize,
                )
            } else {
                (FetchAction::GiveUp { wait_s: FAILED_FETCH_RETRY_INTERVAL_S }, attempt)
            },
        }
    }

    /// A fetch before its first try.
    pub fn new() -> (r: Retry)
        ensures
            r.attempt == 1,
    {
        Retry { attempt: 1 }
    }

    /// Takes note of how the try under way ended, and says what to do.
    pub fn on_event(&mut self, event: FetchEvent) -> (r: FetchAction)
        ensures
            r == Self::spec_decide(old(self).attempt, event).0,
            final(self).attempt == Self::spec_decide(old(self).attempt, event).1,
    {
        match event {
            FetchEvent::Status(status) if status < 200 => FetchAction::Reject(status),
            FetchEvent::Status(status) if status < 400 => FetchAction::Accept,
            _ => if self.attempt < MAX_RETRIES {
                self.attempt = self.attempt + 1;
                FetchAction::Retry { wait_s: FAILED_FETCH_RETRY_INTERVAL_S }
            } else {
                FetchAction::GiveUp { wait_s: FAILED_FETCH_RETRY_INTERVAL_S }
            },
        }
    }
}

/// Bytes in hexadecimal: two small digits for each, the higher first.
pub open spec fn hex_of_bytes(data: Seq<u8>) -> Seq<char> {
    Seq::new(
        2 * data.len(),
        |k: int|
            digit_char(
                if k % 2 == 0 {
                    (data[k / 2] / 16) as nat
                } else {
                    (data[k / 2] % 16) as nat
                },
            ),
    )
}

/// `hex::encode`: the bytes in hexadecimal, two small digits for each.
#[verifier::external_body]
fn hex_encode(data: &[u8]) -> (r: String)
    ensures
        r@ == hex_of_bytes(data@),
{
    hex::encode(data)
}

/// What to do to keep a blob: the name of the file to write, and the name
/// of the file of an earlier blob to remove after it.
#[derive(Debug)]
pub struct SaveAction {
    pub target: Option<String>,
    pub doomed: Option<String>,
}

/// What fetches blobs and reads them, but for the connection.
pub struct Downloader {
    blob_url_base: String,
    transformer: Transformer,
    save: bool,
    cache_dir: String,
    prune: bool,
    doomed: Option<String>,
}

/// The settings of a downloader and the file that it is to remove next.
pub struct DownloaderView {
    pub blob_url_base: Seq<char>,
    pub save: bool,
    pub cache_dir: Seq<char>,
    pub prune: bool,
    pub doomed: Option<Seq<char>>,
}

impl View for Downloader {
    type V = DownloaderView;

    closed spec fn view(&self) -> DownloaderView {
        DownloaderView {
            blob_url_base: self.blob_url_base@,
            save: self.save,
            cache_dir: self.cache_dir@,
            prune: self.prune,
            doomed: option_text(self.doomed),
        }
    }
}

impl Downloader {
    /// The transform of the downloader is that of a blob.
    pub closed spec fn wf(&self) -> bool {
        self.transformer.wf()
    }

    /// A downloader that has kept no blob yet.
    pub fn new(blob_url_base: String, save: bool, cache_dir: String, prune: bool) -> (r: Downloader)
        ensures
            r.wf(),
            r@ == (DownloaderView {
                blob_url_base: blob_url_base@,
                save,
                cache_dir: cache_dir@,
                prune,
                doomed: None,
            }),
    {
        let transformer = Transformer::new();
        Downloader { blob_url_base, transformer, save, cache_dir, prune, doomed: None }
    }

    /// The directory of the blobs that are kept.
    pub fn cache_dir(&self) -> (r: &String)
        ensures
            r@ == self@.cache_dir,
    {
        &self.cache_dir
    }

    /// The address of the blob with the given versioned hash.
    pub fn blob_url(&self, blob_hash: &[u8]) -> (r: String)
        ensures
            r@ == self@.blob_url_base + seq!['0', 'x'] + hex_of_bytes(blob_hash@),
    {
        proof {
            reveal_strlit("0x");
        }
        let mut url = self.blob_url_base.clone();
        url.append("0x");
        let hash = hex_encode(blob_hash);
        url.append(hash.as_str());
        assert(url@ =~= self@.blob_url_base + seq!['0', 'x'] + hex_of_bytes(blob_hash@));
        url
    }

    /// What to do with a blob that was fetched: nothing unless blobs are
    /// kept; else the file to write, named by the blob's commitment, and,
    /// where only the last blob is kept, the one before to remove.
    pub fn save_action(&mut self, commitment: &str) -> (r: SaveAction)
        ensures
            final(self).wf() == old(self).wf(),
            !old(self)@.save ==> r.target is None && r.doomed is None && final(self)@ == old(self)@,
            old(self)@.save ==> r.target is Some && r.target->Some_0@ == commitment@ + ".blob"@,
            old(self)@.save && !old(self)@.prune ==> r.doomed is None && final(self)@ == old(self)@,
            old(self)@.save && old(self)@.prune ==> option_text(r.doomed) == old(self)@.doomed
                && final(self)@ == (DownloaderView {
                doomed: option_text(r.target),
                ..old(self)@
            }),
    {
        if self.save {
            let mut target_name = String::from_str(commitment);
            target_name.append(".blob");
            if self.prune {
                let doomed = self.doomed.take();
                self.doomed = Some(target_name.clone());
                SaveAction { target: Some(target_name), doomed }
            } else {
                SaveAction { target: Some(target_name), doomed: None }
            }
        } else {
            SaveAction { target: None, doomed: None }
        }
    }

    /// The numbers of the transform that the downloader holds.
    pub closed spec fn spec_transformer(&self) -> TransformerView {
        self.transformer@
    }

    /// A copy of the transform, for a worker to take along.
    pub fn transformer(&self) -> (r: Transformer)
        requires
            self.wf(),
        ensures
            r.wf(),
            r@ == self.spec_transformer(),
    {
        self.transformer.clone()
    }
}

/// The sequence that a blob holds: the inverse transform of the elements
/// that its text gives.
pub fn reconstruct(transformer: &Transformer, data: &str) -> (r: Result<Vec<Felt>, BlobError>)
    requires
        transformer.wf(),
    ensures
        match r {
            Ok(seq) => {
                let words = spec_blob_data(vstd::utf8::encode_utf8(trimmed(data@)));
                &&& words is Ok
                &&& seq@.len() == 4096
                &&& values(seq@) == spec_ifft(words->Ok_0, blob_points())
            },
            Err(e) => spec_blob_data(vstd::utf8::encode_utf8(trimmed(data@))) == Err::<
                Seq<nat>,
                BlobError,
            >(e),
        },
{
    let words = match parse_str_to_blob_data(data) {
        Err(e) => {
            return Err(e);
        },
        Ok(words) => words,
    };
    assert(values(words@).len() == 4096);
    Ok(transformer.transform(&words))
}

} // verus!
