//! How traces are stored.

use vstd::prelude::*;
use vstd::string::StringExecFns;

verus! {

/// How a trace is written.
#[derive(Debug, Clone, Copy, PartialEq, Eq, Structural)]
pub enum TraceFormat {
    Json,
    Postcard,
}

#[derive(Debug, Clone, Copy, PartialEq, Eq, Structural)]
pub struct TraceIoConfig {
    pub format: TraceFormat,
}

impl Default for TraceIoConfig {
    fn default() -> (cfg: Self)
        ensures
            cfg.format == TraceFormat::Json,
    {
        TraceIoConfig { format: TraceFormat::Json }
    }
}

/// The format that the extension of a file stands for.
pub open spec fn format_of_extension(extension: Option<Seq<char>>) -> TraceFormat {
    if extension == Some("bin"@) || extension == Some("postcard"@) {
        TraceFormat::Postcard
    } else {
        TraceFormat::Json
    }
}

/// The format that the extension of a file stands for: `bin` and `postcard` for the
/// binary one, and everything else for JSON.
pub fn format_from_extension(extension: Option<&str>) -> (format: TraceFormat)
    ensures
        format == format_of_extension(
            match extension {
                Some(e) => Some(e@),
                None => None,
            },
        ),
{
    match extension {
        Some(e) => {
            let text = String::from_str(e);
            if text == String::from_str("bin") || text == String::from_str("postcard") {
                TraceFormat::Postcard
            } else {
                TraceFormat::Json
            }
        },
        None => TraceFormat::Json,
    }
}

} // verus!
