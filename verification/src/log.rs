//! The last lines of the log, kept for the management protocol.

use vstd::prelude::*;
use vstd::string::StringExecFns;
use crate::text::{join_with, joined, texts};

verus! {

/// How many lines are kept unless the configuration says otherwise.
pub const DEFAULT_ALME_BUFFER_SIZE: usize = 100;

/// How many lines are kept unless the configuration says otherwise.
pub fn default_alme_buffer_size() -> (r: usize)
    ensures
        r == DEFAULT_ALME_BUFFER_SIZE,
{
    DEFAULT_ALME_BUFFER_SIZE
}

/// The last lines of the log, oldest first.
#[derive(Debug)]
pub struct LogBuffer {
    /// The lines kept, oldest first.
    pub lines: Vec<String>,
    /// How many lines are kept at most; with 0, one.
    pub max_size: usize,
}

/// The lines kept after `line` came in: the oldest line leaves first where
/// as many lines are kept as may be.
pub open spec fn recorded(lines: Seq<Seq<char>>, max_size: usize, line: Seq<char>) -> Seq<Seq<char>> {
    if lines.len() >= max_size && lines.len() > 0 {
        lines.drop_first().push(line)
    } else {
        lines.push(line)
    }
}

/// The last `n` of `lines`, the newest first.
pub open spec fn newest_first(lines: Seq<Seq<char>>, n: usize) -> Seq<Seq<char>> {
    Seq::new(
        if n < lines.len() {
            n as nat
        } else {
            lines.len()
        },
        |i: int| lines[lines.len() - 1 - i],
    )
}

impl LogBuffer {
    /// A buffer that keeps `max_size` lines and holds none yet.
    pub fn new(max_size: usize) -> (r: LogBuffer)
        ensures
            r.max_size == max_size,
            r.lines@.len() == 0,
    {
        LogBuffer { lines: Vec::new(), max_size }
    }

    /// Takes in a line; the oldest line leaves where the buffer is full.
    pub fn record(&mut self, line: String)
        ensures
            final(self).max_size == old(self).max_size,
            texts(final(self).lines@) == recorded(texts(old(self).lines@), old(self).max_size, line@),
    {
        let ghost before = texts(self.lines@);
        if self.lines.len() >= self.max_size && self.lines.len() > 0 {
            self.lines.remove(0);
            assert(texts(self.lines@) =~= before.drop_first());
        }
        let ghost kept = texts(self.lines@);
        self.lines.push(line);
        assert(texts(self.lines@) =~= kept.push(line@));
    }

    /// The last `n` lines, the newest first.
    pub fn get_recent_logs(&self, n: usize) -> (r: Vec<String>)
        ensures
            texts(r@) == newest_first(texts(self.lines@), n),
    {
        let count = if n < self.lines.len() {
            n
        } else {
            self.lines.len()
        };
        let mut out: Vec<String> = Vec::new();
        let mut i: usize = 0;
        while i < count
            invariant
                i <= count,
                count <= self.lines@.len(),
                out@.len() == i,
                forall|j: int| 0 <= j < i ==> out@[j]@ == self.lines@[self.lines@.len() - 1 - j]@,
            decreases count - i,
        {
            out.push(self.lines[self.lines.len() - 1 - i].clone());
            i += 1;
        }
        proof {
            assert(texts(out@) =~= newest_first(texts(self.lines@), n));
        }
        out
    }
}

/// The fields of an event as they stand behind its message: nothing where
/// there are none, else a blank and the fields in braces with commas
/// between them.
pub open spec fn fields_text(fields: Seq<Seq<char>>) -> Seq<char> {
    if fields.len() == 0 {
        Seq::empty()
    } else {
        " {"@ + joined(fields, ", "@) + "}"@
    }
}

/// The line of an event: when, how grave, where from, the message, which is
/// `no message` where there is none, and the fields.
pub open spec fn event_line(
    time: Seq<char>,
    level: Seq<char>,
    target: Seq<char>,
    message: Seq<char>,
    fields: Seq<Seq<char>>,
) -> Seq<char> {
    time + " "@ + level + " "@ + target + ": "@ + (if message.len() == 0 {
        "no message"@
    } else {
        message
    }) + fields_text(fields)
}

/// Makes the line of an event for the buffer.
pub fn format_event(time: &str, level: &str, target: &str, message: &str, fields: &Vec<String>) -> (r: String)
    ensures
        r@ == event_line(time@, level@, target@, message@, texts(fields@)),
{
    let mut line = String::from_str(time);
    line.append(" ");
    line.append(level);
    line.append(" ");
    line.append(target);
    line.append(": ");
    if message.unicode_len() == 0 {
        line.append("no message");
    } else {
        line.append(message);
    }
    if fields.len() > 0 {
        line.append(" {");
        line.append(join_with(fields, ", ").as_str());
        line.append("}");
    }
    proof {
        assert(line@ =~= event_line(time@, level@, target@, message@, texts(fields@)));
    }
    line
}

/// The directive that sets the level of the log for one target.
pub open spec fn directive(target: Seq<char>, level: Seq<char>) -> Seq<char> {
    target + "="@ + level
}

/// The directives for the runtime itself and for `modules`, in order.
pub open spec fn directives(default_level: Seq<char>, modules: Seq<(String, String)>) -> Seq<Seq<char>> {
    Seq::new(
        modules.len() + 1,
        |i: int|
            if i == 0 {
                directive("arcella"@, default_level)
            } else {
                directive(modules[i - 1].0@, modules[i - 1].1@)
            },
    )
}

/// Makes the filter of the log: the level of the runtime itself, then the
/// level of each of `modules`, each as `target=level`, with commas between
/// them.
pub fn filter_directives(default_level: &str, modules: &Vec<(String, String)>) -> (r: String)
    ensures
        r@ == joined(directives(default_level@, modules@), ","@),
{
    let mut parts: Vec<String> = Vec::new();
    let mut first = String::from_str("arcella");
    first.append("=");
    first.append(default_level);
    parts.push(first);
    let mut i: usize = 0;
    while i < modules.len()
        invariant
            i <= modules.len(),
            parts@.len() == i + 1,
            forall|j: int| 0 <= j <= i ==> #[trigger] parts@[j]@ == directives(default_level@, modules@)[j],
        decreases modules.len() - i,
    {
        let mut part = modules[i].0.clone();
        part.append("=");
        part.append(modules[i].1.as_str());
        parts.push(part);
        i += 1;
    }
    proof {
        assert(texts(parts@) =~= directives(default_level@, modules@));
    }
    join_with(&parts, ",")
}

} // verus!
