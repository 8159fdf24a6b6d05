//! How a table is read.

use crate::platform::system::DriveType;
use crate::scan::same_text;
use vstd::prelude::*;
use vstd::string::*;

verus! {

/// How a table is read.
#[derive(Debug, Clone, Copy, PartialEq, Eq, Structural)]
pub enum MftReadMode {
    /// The best mode for what is built from the table.
    Auto,
    /// All chunks are read, then parsed on several threads.
    Parallel,
    /// Each chunk is parsed as soon as it is read.
    Streaming,
    /// The next chunk is read while one is parsed.
    Prefetch,
    /// One thread reads and another one parses.
    Pipelined,
    /// One thread reads and several parse.
    PipelinedParallel,
    /// Several overlapped reads are in flight.
    IocpParallel,
    /// All chunks are read into one buffer, then parsed.
    Bulk,
    /// All overlapped reads are issued at once.
    BulkIocp,
    /// A window of overlapped reads slides over the table.
    SlidingIocp,
    /// A window of overlapped reads slides over the table, and records go
    /// straight into an index.
    SlidingIocpInline,
}

impl Default for MftReadMode {
    fn default() -> (r: MftReadMode)
        ensures
            r == MftReadMode::Auto,
    {
        MftReadMode::Auto
    }
}

/// The name of a mode.
pub open spec fn mode_name(mode: MftReadMode) -> Seq<char> {
    match mode {
        MftReadMode::Auto => "auto"@,
        MftReadMode::Parallel => "parallel"@,
        MftReadMode::Streaming => "streaming"@,
        MftReadMode::Prefetch => "prefetch"@,
        MftReadMode::Pipelined => "pipelined"@,
        MftReadMode::PipelinedParallel => "pipelined-parallel"@,
        MftReadMode::IocpParallel => "iocp-parallel"@,
        MftReadMode::Bulk => "bulk"@,
        MftReadMode::BulkIocp => "bulk-iocp"@,
        MftReadMode::SlidingIocp => "sliding-iocp"@,
        MftReadMode::SlidingIocpInline => "sliding-iocp-inline"@,
    }
}

/// The mode that a name in lower case stands for: its name, or a short form
/// of it.
pub open spec fn named_mode(s: Seq<char>) -> Option<MftReadMode> {
    if s == "auto"@ {
        Some(MftReadMode::Auto)
    } else if s == "parallel"@ {
        Some(MftReadMode::Parallel)
    } else if s == "streaming"@ {
        Some(MftReadMode::Streaming)
    } else if s == "prefetch"@ {
        Some(MftReadMode::Prefetch)
    } else if s == "pipelined"@ || s == "pipeline"@ {
        Some(MftReadMode::Pipelined)
    } else if s == "pipelined-parallel"@ || s == "pipelinedparallel"@ {
        Some(MftReadMode::PipelinedParallel)
    } else if s == "iocp-parallel"@ || s == "iocpparallel"@ || s == "iocp"@ {
        Some(MftReadMode::IocpParallel)
    } else if s == "bulk"@ {
        Some(MftReadMode::Bulk)
    } else if s == "bulk-iocp"@ || s == "bulkiocp"@ {
        Some(MftReadMode::BulkIocp)
    } else if s == "sliding-iocp"@ || s == "slidingiocp"@ || s == "sliding"@ {
        Some(MftReadMode::SlidingIocp)
    } else if s == "sliding-iocp-inline"@ || s == "slidingiocpinline"@ || s == "inline"@ {
        Some(MftReadMode::SlidingIocpInline)
    } else {
        None
    }
}

/// The lower-case form of an ASCII letter, any other character as it is.
pub open spec fn ascii_lower(c: char) -> char {
    if 'A' <= c <= 'Z' {
        (c as int + 32) as char
    } else {
        c
    }
}

/// Every character is an ASCII character.
pub open spec fn all_ascii(s: Seq<char>) -> bool {
    forall|i: int| 0 <= i < s.len() ==> (#[trigger] s[i] as u32) < 128
}

/// What `str::to_lowercase` of std makes of a text.
pub uninterp spec fn lowercase(s: Seq<char>) -> Seq<char>;

/// `str::to_lowercase` of std. Trusted: the result depends on the text alone,
/// and of ASCII characters only the upper-case letters change, each to its
/// lower-case letter.
#[verifier::external_body]
fn to_lowercase(s: &str) -> (r: String)
    ensures
        r@ == lowercase(s@),
        all_ascii(s@) ==> r@ == s@.map_values(|c: char| ascii_lower(c)),
{
    s.to_lowercase()
}

/// The message for a name that stands for no mode.
pub open spec fn unknown_mode(s: Seq<char>) -> Seq<char> {
    "Invalid read mode '"@ + s
        + "'. Valid options: auto, parallel, streaming, prefetch, pipelined, pipelined-parallel, iocp-parallel, bulk, bulk-iocp, sliding-iocp, sliding-iocp-inline"@
}

impl MftReadMode {
    /// The name of the mode.
    pub fn as_str(&self) -> (r: &'static str)
        ensures
            r@ == mode_name(*self),
    {
        match self {
            MftReadMode::Auto => "auto",
            MftReadMode::Parallel => "parallel",
            MftReadMode::Streaming => "streaming",
            MftReadMode::Prefetch => "prefetch",
            MftReadMode::Pipelined => "pipelined",
            MftReadMode::PipelinedParallel => "pipelined-parallel",
            MftReadMode::IocpParallel => "iocp-parallel",
            MftReadMode::Bulk => "bulk",
            MftReadMode::BulkIocp => "bulk-iocp",
            MftReadMode::SlidingIocp => "sliding-iocp",
            MftReadMode::SlidingIocpInline => "sliding-iocp-inline",
        }
    }

    /// The name of the mode.
    pub fn to_string(&self) -> (r: String)
        ensures
            r@ == mode_name(*self),
    {
        String::from_str(self.as_str())
    }

    /// The mode that a name in lower case stands for.
    pub fn from_lowercase(s: &str) -> (r: Option<MftReadMode>)
        ensures
            r == named_mode(s@),
    {
        if same_text(s, "auto") {
            Some(MftReadMode::Auto)
        } else if same_text(s, "parallel") {
            Some(MftReadMode::Parallel)
        } else if same_text(s, "streaming") {
            Some(MftReadMode::Streaming)
        } else if same_text(s, "prefetch") {
            Some(MftReadMode::Prefetch)
        } else if same_text(s, "pipelined") || same_text(s, "pipeline") {
            Some(MftReadMode::Pipelined)
        } else if same_text(s, "pipelined-parallel") || same_text(s, "pipelinedparallel") {
            Some(MftReadMode::PipelinedParallel)
        } else if same_text(s, "iocp-parallel") || same_text(s, "iocpparallel") || same_text(s, "iocp") {
            Some(MftReadMode::IocpParallel)
        } else if same_text(s, "bulk") {
            Some(MftReadMode::Bulk)
        } else if same_text(s, "bulk-iocp") || same_text(s, "bulkiocp") {
            Some(MftReadMode::BulkIocp)
        } else if same_text(s, "sliding-iocp") || same_text(s, "slidingiocp") || same_text(s, "sliding") {
            Some(MftReadMode::SlidingIocp)
        } else if same_text(s, "sliding-iocp-inline") || same_text(s, "slidingiocpinline") || same_text(
            s,
            "inline",
        ) {
            Some(MftReadMode::SlidingIocpInline)
        } else {
            None
        }
    }

    /// The mode that a name in any case stands for, or a message that lists
    /// the names.
    pub fn parse(s: &str) -> (r: Result<MftReadMode, String>)
        ensures
            match named_mode(lowercase(s@)) {
                Some(mode) => r == Ok::<MftReadMode, String>(mode),
                None => r matches Err(message) && message@ == unknown_mode(s@),
            },
            all_ascii(s@) ==> lowercase(s@) == s@.map_values(|c: char| ascii_lower(c)),
    {
        let lowered: String = to_lowercase(s);
        match MftReadMode::from_lowercase(lowered.as_str()) {
            Some(mode) => Ok(mode),
            None => {
                let mut message: String = String::from_str("Invalid read mode '");
                message.append(s);
                message.append(
                    "'. Valid options: auto, parallel, streaming, prefetch, pipelined, pipelined-parallel, iocp-parallel, bulk, bulk-iocp, sliding-iocp, sliding-iocp-inline",
                );
                Err(message)
            },
        }
    }
}

impl std::str::FromStr for MftReadMode {
    type Err = String;

    fn from_str(s: &str) -> (r: Result<MftReadMode, String>)
        ensures
            match named_mode(lowercase(s@)) {
                Some(mode) => r == Ok::<MftReadMode, String>(mode),
                None => r matches Err(message) && message@ == unknown_mode(s@),
            },
            all_ascii(s@) ==> lowercase(s@) == s@.map_values(|c: char| ascii_lower(c)),
    {
        MftReadMode::parse(s)
    }
}

/// Every mode has a name of its own, and the name stands for the mode.
pub proof fn law_names_stand_for_modes(mode: MftReadMode)
    ensures
        named_mode(mode_name(mode)) == Some(mode),
{
    reveal_strlit("auto");
    assert("auto"@.len() == 4);
    reveal_strlit("parallel");
    assert("parallel"@.len() == 8);
    reveal_strlit("streaming");
    assert("streaming"@.len() == 9);
    reveal_strlit("prefetch");
    assert("prefetch"@.len() == 8);
    reveal_strlit("pipelined");
    assert("pipelined"@.len() == 9);
    reveal_strlit("pipeline");
    assert("pipeline"@.len() == 8);
    reveal_strlit("pipelined-parallel");
    assert("pipelined-parallel"@.len() == 18);
    reveal_strlit("pipelinedparallel");
    assert("pipelinedparallel"@.len() == 17);
    reveal_strlit("iocp-parallel");
    assert("iocp-parallel"@.len() == 13);
    reveal_strlit("iocpparallel");
    assert("iocpparallel"@.len() == 12);
    reveal_strlit("iocp");
    assert("iocp"@.len() == 4);
    reveal_strlit("bulk");
    assert("bulk"@.len() == 4);
    reveal_strlit("bulk-iocp");
    assert("bulk-iocp"@.len() == 9);
    reveal_strlit("bulkiocp");
    assert("bulkiocp"@.len() == 8);
    reveal_strlit("sliding-iocp");
    assert("sliding-iocp"@.len() == 12);
    reveal_strlit("slidingiocp");
    assert("slidingiocp"@.len() == 11);
    reveal_strlit("sliding");
    assert("sliding"@.len() == 7);
    reveal_strlit("sliding-iocp-inline");
    assert("sliding-iocp-inline"@.len() == 19);
    reveal_strlit("slidingiocpinline");
    assert("slidingiocpinline"@.len() == 17);
    reveal_strlit("inline");
    assert("inline"@.len() == 6);
    assert("auto"@[0] == 'a');
    assert("bulk"@[0] == 'b');
    assert("iocp"@[0] == 'i');
    assert("parallel"@[1] == 'a');
    assert("prefetch"@[1] == 'r');
    assert("streaming"@[0] == 's');
    assert("pipelined"@[0] == 'p');
    assert("bulk-iocp"@[0] == 'b');
    assert("sliding-iocp"@[0] == 's');
    assert("iocpparallel"@[0] == 'i');
}

/// A name that is written in any mix of upper and lower case stands for its
/// mode.
pub proof fn law_case_of_names_does_not_matter(mode: MftReadMode, s: Seq<char>)
    requires
        s.len() == mode_name(mode).len(),
        forall|i: int| 0 <= i < s.len() ==> ascii_lower(#[trigger] s[i]) == mode_name(mode)[i],
    ensures
        all_ascii(s),
        named_mode(s.map_values(|c: char| ascii_lower(c))) == Some(mode),
{
    law_names_stand_for_modes(mode);
    assert(s.map_values(|c: char| ascii_lower(c)) =~= mode_name(mode));
    lemma_names_are_ascii(mode);
    assert forall|i: int| 0 <= i < s.len() implies (#[trigger] s[i] as u32) < 128 by {
        assert((mode_name(mode)[i] as u32) < 128);
    }
}

proof fn lemma_names_are_ascii(mode: MftReadMode)
    ensures
        all_ascii(mode_name(mode)),
{
    reveal_strlit("auto");
    reveal_strlit("parallel");
    reveal_strlit("streaming");
    reveal_strlit("prefetch");
    reveal_strlit("pipelined");
    reveal_strlit("pipelined-parallel");
    reveal_strlit("iocp-parallel");
    reveal_strlit("bulk");
    reveal_strlit("bulk-iocp");
    reveal_strlit("sliding-iocp");
    reveal_strlit("sliding-iocp-inline");
}

/// The mode that the automatic one selects for columns, by the kind of drive.
pub open spec fn automatic_mode(drive_type: DriveType) -> MftReadMode {
    match drive_type {
        DriveType::Nvme | DriveType::Ssd | DriveType::Unknown => MftReadMode::Parallel,
        DriveType::Hdd => MftReadMode::PipelinedParallel,
    }
}

/// The mode in which a table is read for its columns.
pub fn dataframe_effective_mode(mode: MftReadMode, drive_type: DriveType) -> (r: MftReadMode)
    ensures
        r == if mode is Auto {
            automatic_mode(drive_type)
        } else {
            mode
        },
{
    match mode {
        MftReadMode::Auto => match drive_type {
            DriveType::Nvme | DriveType::Ssd | DriveType::Unknown => MftReadMode::Parallel,
            DriveType::Hdd => MftReadMode::PipelinedParallel,
        },
        other => other,
    }
}

/// The mode in which a table is read for an index. Whatever the drive, the
/// automatic one puts the records straight into the index.
pub fn index_effective_mode(mode: MftReadMode, drive_type: DriveType) -> (r: MftReadMode)
    ensures
        r == if mode is Auto {
            MftReadMode::SlidingIocpInline
        } else {
            mode
        },
{
    match mode {
        MftReadMode::Auto => match drive_type {
            DriveType::Nvme | DriveType::Ssd | DriveType::Hdd | DriveType::Unknown =>
            MftReadMode::SlidingIocpInline,
        },
        other => other,
    }
}

/// Some modes also go by a short name: their name without its hyphens, and the
/// part of it by which they are commonly known.
pub proof fn law_short_names()
    ensures
        named_mode("pipeline"@) == Some(MftReadMode::Pipelined),
        named_mode("pipelinedparallel"@) == Some(MftReadMode::PipelinedParallel),
        named_mode("iocpparallel"@) == Some(MftReadMode::IocpParallel),
        named_mode("iocp"@) == Some(MftReadMode::IocpParallel),
        named_mode("bulkiocp"@) == Some(MftReadMode::BulkIocp),
        named_mode("slidingiocp"@) == Some(MftReadMode::SlidingIocp),
        named_mode("sliding"@) == Some(MftReadMode::SlidingIocp),
        named_mode("slidingiocpinline"@) == Some(MftReadMode::SlidingIocpInline),
        named_mode("inline"@) == Some(MftReadMode::SlidingIocpInline),
{
    reveal_strlit("auto");
    assert("auto"@.len() == 4 && "auto"@[0] == 'a' && "auto"@[1] == 'u');
    reveal_strlit("parallel");
    assert("parallel"@.len() == 8 && "parallel"@[0] == 'p' && "parallel"@[1] == 'a');
    reveal_strlit("streaming");
    assert("streaming"@.len() == 9 && "streaming"@[0] == 's' && "streaming"@[1] == 't');
    reveal_strlit("prefetch");
    assert("prefetch"@.len() == 8 && "prefetch"@[0] == 'p' && "prefetch"@[1] == 'r');
    reveal_strlit("pipelined");
    assert("pipelined"@.len() == 9 && "pipelined"@[0] == 'p' && "pipelined"@[1] == 'i');
    reveal_strlit("pipeline");
    assert("pipeline"@.len() == 8 && "pipeline"@[0] == 'p' && "pipeline"@[1] == 'i');
    reveal_strlit("pipelined-parallel");
    assert("pipelined-parallel"@.len() == 18 && "pipelined-parallel"@[0] == 'p' && "pipelined-parallel"@[1] == 'i');
    reveal_strlit("pipelinedparallel");
    assert("pipelinedparallel"@.len() == 17 && "pipelinedparallel"@[0] == 'p' && "pipelinedparallel"@[1] == 'i');
    reveal_strlit("iocp-parallel");
    assert("iocp-parallel"@.len() == 13 && "iocp-parallel"@[0] == 'i' && "iocp-parallel"@[1] == 'o');
    reveal_strlit("iocpparallel");
    assert("iocpparallel"@.len() == 12 && "iocpparallel"@[0] == 'i' && "iocpparallel"@[1] == 'o');
    reveal_strlit("iocp");
    assert("iocp"@.len() == 4 && "iocp"@[0] == 'i' && "iocp"@[1] == 'o');
    reveal_strlit("bulk");
    assert("bulk"@.len() == 4 && "bulk"@[0] == 'b' && "bulk"@[1] == 'u');
    reveal_strlit("bulk-iocp");
    assert("bulk-iocp"@.len() == 9 && "bulk-iocp"@[0] == 'b' && "bulk-iocp"@[1] == 'u');
    reveal_strlit("bulkiocp");
    assert("bulkiocp"@.len() == 8 && "bulkiocp"@[0] == 'b' && "bulkiocp"@[1] == 'u');
    reveal_strlit("sliding-iocp");
    assert("sliding-iocp"@.len() == 12 && "sliding-iocp"@[0] == 's' && "sliding-iocp"@[1] == 'l');
    reveal_strlit("slidingiocp");
    assert("slidingiocp"@.len() == 11 && "slidingiocp"@[0] == 's' && "slidingiocp"@[1] == 'l');
    reveal_strlit("sliding");
    assert("sliding"@.len() == 7 && "sliding"@[0] == 's' && "sliding"@[1] == 'l');
    reveal_strlit("sliding-iocp-inline");
    assert("sliding-iocp-inline"@.len() == 19 && "sliding-iocp-inline"@[0] == 's' && "sliding-iocp-inline"@[1] == 'l');
    reveal_strlit("slidingiocpinline");
    assert("slidingiocpinline"@.len() == 17 && "slidingiocpinline"@[0] == 's' && "slidingiocpinline"@[1] == 'l');
    reveal_strlit("inline");
    assert("inline"@.len() == 6 && "inline"@[0] == 'i' && "inline"@[1] == 'n');
}

/// The names of the modes.
pub proof fn law_mode_names(a: MftReadMode, b: MftReadMode)
    ensures
        mode_name(MftReadMode::Auto) == "auto"@,
        mode_name(MftReadMode::Parallel) == "parallel"@,
        mode_name(MftReadMode::Streaming) == "streaming"@,
        mode_name(MftReadMode::Prefetch) == "prefetch"@,
        mode_name(MftReadMode::Pipelined) == "pipelined"@,
        mode_name(MftReadMode::PipelinedParallel) == "pipelined-parallel"@,
        mode_name(MftReadMode::IocpParallel) == "iocp-parallel"@,
        mode_name(MftReadMode::Bulk) == "bulk"@,
        mode_name(MftReadMode::BulkIocp) == "bulk-iocp"@,
        mode_name(MftReadMode::SlidingIocp) == "sliding-iocp"@,
        mode_name(MftReadMode::SlidingIocpInline) == "sliding-iocp-inline"@,
        mode_name(a) == mode_name(b) ==> a == b,
{
    law_names_stand_for_modes(a);
    law_names_stand_for_modes(b);
}

/// No other text stands for a mode.
pub proof fn law_other_names_stand_for_nothing(s: Seq<char>)
    ensures
        named_mode(s) matches Some(mode) ==> s == mode_name(mode) || s == "pipeline"@ || s
            == "pipelinedparallel"@ || s == "iocpparallel"@ || s == "iocp"@ || s == "bulkiocp"@ || s
            == "slidingiocp"@ || s == "sliding"@ || s == "slidingiocpinline"@ || s == "inline"@,
{
}

} // verus!
