//! What the workers share: task payloads, the error codes they report, and
//! what a run of the extraction tool gave back.

use vstd::prelude::*;

verus! {

/// The payload could not be read.
pub const ERR_MALFORMED_PAYLOAD: isize = -500;
/// The URL's domain is not one the task supports.
pub const ERR_UNSUPPORTED_DOMAIN: isize = -400;
/// No registrable domain could be found in the URL.
pub const ERR_NO_DOMAIN: isize = -401;
/// The filename-resolution run failed.
pub const ERR_RESOLVE_FAILED: isize = -502;
/// The filename-resolution output could not be read.
pub const ERR_RESOLVE_OUTPUT: isize = -503;
/// The download run failed.
pub const ERR_DOWNLOAD_FAILED: isize = -504;
/// The channel id or name could not be resolved.
pub const ERR_CHANNEL_LOOKUP: isize = -505;
/// The channel clashes with a registered one, or the table is full.
pub const ERR_CHANNEL_EXISTS: isize = -506;
/// The channel listing could not be obtained or read.
pub const ERR_LISTING_FAILED: isize = -507;
/// The task's kind is not one the workers know.
pub const ERR_UNKNOWN_KIND: isize = -509;
/// The worker stopped without reporting an outcome.
pub const ERR_WORKER_STOPPED: isize = -508;

/// Payload of a video download: the video's URL.
pub struct TaskDownloadData {
    pub url: String,
}

/// Payload of a channel registration: a URL of the channel.
pub struct TaskChannelAddData {
    pub url: String,
}

/// Payload of a channel listing: the domain and the source channel id.
pub struct TaskChannelFetchData {
    pub domain: String,
    pub channel_id: String,
}

/// What a run of the extraction tool gave back.
pub enum ToolOutput {
    /// The process could not be started.
    NotRun,
    /// The process exited with a failure status.
    Failed,
    /// The process exited successfully; its standard output, when it is
    /// UTF-8 text.
    Finished(Option<String>),
}

impl ToolOutput {
    /// Whether the run succeeded.
    pub fn succeeded(&self) -> (r: bool)
        ensures
            r == (*self is Finished),
    {
        match self {
            ToolOutput::Finished(_) => true,
            _ => false,
        }
    }
}

/// The text of a successful run, if it was text.
pub open spec fn output_text(o: ToolOutput) -> Option<Seq<char>> {
    match o {
        ToolOutput::Finished(Some(s)) => Some(s@),
        _ => None,
    }
}

} // verus!
