//! The application's self-update: what the interface is told, and how the
//! download's progress is reported.
use vstd::prelude::*;

verus! {

/// An update ready to install.
#[derive(Debug, Clone)]
pub struct Disponible {
    pub version: String,
    pub notes: Option<String>,
}

/// Whether a check for updates goes on to download: not when an update from
/// an earlier check is already waiting to be installed, nor while another
/// download is under way. The one that goes on marks the download as under
/// way (the second value) until it ends.
pub fn claim_download(pending: bool, downloading: bool) -> (r: (bool, bool))
    ensures
        r.0 == (!pending && !downloading),
        r.1 == (downloading || r.0),
{
    if pending || downloading {
        (false, downloading)
    } else {
        (true, true)
    }
}

/// The whole percentage of `done` bytes out of `total`, at most 100.
pub open spec fn percent(done: u64, total: u64) -> u8 {
    if (done * 100) / (total as int) > 100 {
        100
    } else {
        ((done * 100) / (total as int)) as u8
    }
}

/// A chunk of `chunk` bytes arrived, after `done` bytes, out of `total`
/// (unknown or 0: no percentage); `last` is the percentage last reported.
/// The bytes so far, and the percentage to report: only when it changes,
/// or a thousand events would paint the same bar.
pub fn progress(done: u64, chunk: u64, total: Option<u64>, last: u8) -> (r: (u64, Option<u8>))
    requires
        (done + chunk) * 100 <= u64::MAX,
    ensures
        r.0 == done + chunk,
        match total {
            Some(t) if t > 0 => if percent(r.0, t) != last {
                r.1 == Some(percent(r.0, t))
            } else {
                r.1 is None
            },
            _ => r.1 is None,
        },
{
    let now = done + chunk;
    let t = match total {
        Some(t) if t > 0 => t,
        _ => {
            return (now, None);
        },
    };
    let raw = (now * 100) / t;
    let p: u8 = if raw > 100 {
        100
    } else {
        raw as u8
    };
    if p != last {
        (now, Some(p))
    } else {
        (now, None)
    }
}

} // verus!
