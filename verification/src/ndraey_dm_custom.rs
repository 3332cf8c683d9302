//! The downloader's bookkeeping while the chunks of a download arrive.
use vstd::prelude::*;

verus! {

/// What the downloader keeps while a download runs: the bytes received so
/// far, those received since the current second began, the second in which
/// the count was last reset, and the speed (bytes in the last full second).
pub struct DownloadProgress {
    pub downloaded: u64,
    pub downloaded_in_sec: usize,
    pub last_second: u64,
    pub speed: usize,
}

impl DownloadProgress {
    /// The progress of a download that starts at second `now`.
    pub fn new(now: u64) -> (r: DownloadProgress)
        ensures
            r.downloaded == 0,
            r.downloaded_in_sec == 0,
            r.last_second == now,
            r.speed == 0,
    {
        DownloadProgress { downloaded: 0, downloaded_in_sec: 0, last_second: now, speed: 0 }
    }

    /// Records a chunk of `chunk_len` bytes that arrived at second `now`.
    /// When a new second has begun, the bytes counted in the last one
    /// become the speed and the count starts over.
    pub fn record_chunk(&mut self, chunk_len: usize, now: u64)
        requires
            old(self).downloaded + chunk_len <= u64::MAX,
            old(self).downloaded_in_sec + chunk_len <= usize::MAX,
        ensures
            final(self).downloaded == old(self).downloaded + chunk_len,
            now > old(self).last_second ==> final(self).speed == old(self).downloaded_in_sec + chunk_len,
            now > old(self).last_second ==> final(self).downloaded_in_sec == 0,
            now > old(self).last_second ==> final(self).last_second == now,
            now <= old(self).last_second ==> final(self).speed == old(self).speed,
            now <= old(self).last_second ==> final(self).downloaded_in_sec == old(self).downloaded_in_sec + chunk_len,
            now <= old(self).last_second ==> final(self).last_second == old(self).last_second,
    {
        self.downloaded = self.downloaded + chunk_len as u64;
        self.downloaded_in_sec = self.downloaded_in_sec + chunk_len;
        if now > self.last_second {
            self.speed = self.downloaded_in_sec;
            self.downloaded_in_sec = 0;
            self.last_second = now;
        }
    }
}

} // verus!
