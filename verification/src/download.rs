//! The download of the corpus: what to do with each chunk that arrives.
//!
//! The caller owns the connection and the file. It reads a chunk, asks
//! `chunk` what to do with it, and writes and reports as it is told until it
//! is told that the download is done.

use vstd::prelude::*;

verus! {

/// Where the corpus is published.
pub const SOURCE_URL: &'static str =
    "https://kaikki.org/dictionary/English/kaikki.org-dictionary-English.json";

/// The most bytes that are read at a time.
pub const CHUNK_SIZE: usize = 8192;

/// The progress bar of the download.
pub const DOWNLOAD_BAR: &'static str =
    "[{bar:40.cyan/blue}][{percent}%][{elapsed_precise}][{bytes_per_sec}][ETA: {eta}]";

/// The characters that the progress bars are drawn with.
pub const BAR_CHARS: &'static str = "##-";

/// What is said on the progress bar when the download has ended.
pub const DOWNLOAD_DONE: &'static str = "Download complete.";

/// Where a download stands.
#[derive(Debug, Clone, Copy, PartialEq, Eq)]
pub struct Download {
    /// The size that the server announced, zero where it announced none.
    pub total: u64,
    /// The bytes written so far.
    pub downloaded: u64,
}

/// What the caller does with the chunk it has just read.
#[derive(Debug, Clone, Copy, PartialEq, Eq)]
pub enum Transfer {
    /// Write the first `count` bytes of the buffer, then show `position` on
    /// the progress bar.
    Write { count: usize, position: u64 },
    /// Nothing came: the download is complete.
    Done,
}

impl Download {
    /// A download of which nothing has arrived yet.
    pub fn new(content_length: Option<u64>) -> (d: Download)
        ensures
            d.downloaded == 0,
            d.total == match content_length {
                Some(n) => n,
                None => 0,
            },
    {
        Download {
            total: match content_length {
                Some(n) => n,
                None => 0,
            },
            downloaded: 0,
        }
    }

    /// Takes a chunk of `bytes_read` bytes. An empty chunk ends the download
    /// and changes nothing; any other chunk is to be written whole, and
    /// counts.
    pub fn chunk(&mut self, bytes_read: usize) -> (todo: Transfer)
        requires
            old(self).downloaded + bytes_read <= u64::MAX,
        ensures
            final(self).total == old(self).total,
            final(self).downloaded == old(self).downloaded + bytes_read,
            bytes_read == 0 ==> todo == Transfer::Done,
            bytes_read > 0 ==> todo == (Transfer::Write {
                count: bytes_read,
                position: final(self).downloaded,
            }),
    {
        if bytes_read == 0 {
            Transfer::Done
        } else {
            self.downloaded = self.downloaded + bytes_read as u64;
            Transfer::Write { count: bytes_read, position: self.downloaded }
        }
    }
}

} // verus!
