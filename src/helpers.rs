//! Small text helpers shared by the site: matching a string against a list,
//! trimming command output, joining with a separator, and describing how to
//! install the external tools that the site runs.

use crate::text::{decimal, push_char, write_decimal};
use vstd::prelude::*;
use vstd::utf8::{decode_utf8, valid_utf8};

verus! {

/// What `String::from_utf8_lossy` makes of `b`.
pub uninterp spec fn utf8_lossy(b: Seq<u8>) -> Seq<char>;

/// What `{:?}` writes for the string `s`: quoted, with escapes.
pub uninterp spec fn debug_str(s: Seq<char>) -> Seq<char>;

/// Relies on `String::from_utf8_lossy`: valid UTF-8 is decoded as it is;
/// otherwise invalid sequences become U+FFFD.
#[verifier::external_body]
fn from_utf8_lossy(b: &[u8]) -> (r: String)
    ensures
        r@ == utf8_lossy(b@),
        valid_utf8(b@) ==> r@ == decode_utf8(b@),
{
    String::from_utf8_lossy(b).to_string()
}

/// Relies on the `Debug` formatting of `str`, which quotes and escapes.
#[verifier::external_body]
fn debug_quoted(s: &str) -> (r: String)
    ensures
        r@ == debug_str(s@),
{
    format!("{:?}", s)
}

/// Whether `this` equals one of `others`.
pub fn eq_one_of(this: &str, others: &[&str]) -> (r: bool)
    ensures
        r == exists|i: int| 0 <= i < others@.len() && #[trigger] others@[i]@ == this@,
{
    let wanted: String = this.to_owned();
    let mut i: usize = 0;
    while i < others.len()
        invariant
            wanted@ == this@,
            i <= others@.len(),
            forall|x: int| 0 <= x < i ==> #[trigger] others@[x]@ != this@,
        decreases others@.len() - i,
    {
        let other: String = others[i].to_owned();
        if other == wanted {
            return true;
        }
        i = i + 1;
    }
    false
}

/// The output of a command with one trailing newline taken off.
pub open spec fn trimmed_output(output: Seq<u8>) -> Seq<u8> {
    if output.len() > 0 && output.last() == 10u8 {
        output.drop_last()
    } else {
        output
    }
}

/// A command's output as text, without its trailing newline. Bytes that are
/// not UTF-8 become U+FFFD.
pub fn command_output(output: Vec<u8>) -> (r: String)
    ensures
        r@ == utf8_lossy(trimmed_output(output@)),
        valid_utf8(trimmed_output(output@)) ==> r@ == decode_utf8(trimmed_output(output@)),
{
    let mut output = output;
    let n = output.len();
    if n > 0 && output[n - 1] == 10u8 {
        output.pop();
    }
    from_utf8_lossy(output.as_slice())
}

/// The items joined, with `sep` between each two.
pub open spec fn joined(items: Seq<Seq<char>>, sep: Seq<char>) -> Seq<char>
    decreases items.len(),
{
    if items.len() == 0 {
        Seq::empty()
    } else if items.len() == 1 {
        items[0]
    } else {
        joined(items.drop_last(), sep) + sep + items.last()
    }
}

/// The items written one after another, with `separator` between each two.
pub fn display_separated(things: &[String], separator: &str) -> (r: String)
    ensures
        r@ == joined(things@.map_values(|s: String| s@), separator@),
{
    let ghost items = things@.map_values(|s: String| s@);
    let mut out = String::new();
    let mut i: usize = 0;
    while i < things.len()
        invariant
            items == things@.map_values(|s: String| s@),
            i <= things@.len(),
            out@ == joined(items.take(i as int), separator@),
        decreases things@.len() - i,
    {
        if i > 0 {
            out.append(separator);
        }
        out.append(things[i].as_str());
        proof {
            let pre = items.take(i as int);
            let next = items.take(i + 1);
            assert(next.drop_last() =~= pre);
            if i == 0 {
                assert(pre.len() == 0);
                assert(out@ =~= items[0]);
            }
        }
        i = i + 1;
    }
    assert(items.take(things@.len() as int) =~= items);
    out
}

/// An external tool that the site needs, and how to get it.
pub enum Dep {
    /// A file to download and set up by hand.
    File { name: String, download: String, instructions: String },
    /// A package that a command installs.
    Package { name: String, install: String },
}

impl Dep {
    pub open spec fn name_view(&self) -> Seq<char> {
        match self {
            Dep::File { name, .. } => name@,
            Dep::Package { name, .. } => name@,
        }
    }

    /// How to install the tool, in one sentence.
    pub open spec fn installation_view(&self) -> Seq<char> {
        match self {
            Dep::Package { install, .. } => seq!['R', 'u', 'n', ' ', 'c', 'o', 'm', 'm', 'a', 'n', 'd', ' ', '`']
                + install@ + seq!['`'],
            Dep::File { download, instructions, .. } => seq!['D', 'o', 'w', 'n', 'l', 'o', 'a', 'd', ' ', 'f', 'r', 'o', 'm', ' ']
                + debug_str(download@) + seq![',', ' ', 't', 'h', 'e', 'n', ' '] + instructions@,
        }
    }

    /// The tool's name.
    pub fn name(&self) -> (r: &str)
        ensures
            r@ == self.name_view(),
    {
        match self {
            Dep::Package { name, .. } => name.as_str(),
            Dep::File { name, .. } => name.as_str(),
        }
    }

    /// How to install the tool: `Run command `<install>`` for a package,
    /// `Download from "<url>", then <instructions>` for a file.
    pub fn installation(&self) -> (r: String)
        ensures
            r@ == self.installation_view(),
    {
        match self {
            Dep::Package { install, .. } => {
                proof {
                    reveal_strlit("Run command `");
                    reveal_strlit("`");
                }
                let mut out = String::from_str("Run command `");
                out.append(install.as_str());
                out.append("`");
                assert(out@ =~= self.installation_view());
                out
            },
            Dep::File { download, instructions, .. } => {
                proof {
                    reveal_strlit("Download from ");
                    reveal_strlit(", then ");
                }
                let mut out = String::from_str("Download from ");
                let quoted = debug_quoted(download.as_str());
                out.append(quoted.as_str());
                out.append(", then ");
                out.append(instructions.as_str());
                assert(out@ =~= self.installation_view());
                out
            },
        }
    }
}

/// The report line for a missing tool: a command, or a Python module.
pub open spec fn missing_message(d: Dep, python: bool) -> Seq<char> {
    if python {
        seq!['M', 'i', 's', 's', 'i', 'n', 'g', ' ', 'p', 'y', 't', 'h', 'o', 'n', ' ', 'm', 'o', 'd', 'u', 'l', 'e', ' ']
            + debug_str(d.name_view()) + seq!['.', ' ', 'I', 'n', 's', 't', 'a', 'l', 'l', 'a', 't', 'i', 'o', 'n', ':', '\n', '\t']
            + d.installation_view()
    } else {
        seq!['M', 'i', 's', 's', 'i', 'n', 'g', ' '] + debug_str(d.name_view())
            + seq![' ', 'c', 'o', 'm', 'm', 'a', 'n', 'd', '.', ' ', 'I', 'n', 's', 't', 'a', 'l', 'l', 'a', 't', 'i', 'o', 'n', ':', '\n', '\t']
            + d.installation_view()
    }
}

/// The report lines for the tools of `deps` that were not found, in order.
pub open spec fn missing_messages(deps: Seq<Dep>, found: Seq<bool>, python: bool) -> Seq<Seq<char>>
    decreases deps.len(),
{
    if deps.len() == 0 {
        Seq::empty()
    } else {
        let before = missing_messages(deps.drop_last(), found, python);
        if found[deps.len() - 1] {
            before
        } else {
            before.push(missing_message(deps.last(), python))
        }
    }
}

/// The external tools that the site runs: commands, and Python modules.
pub struct ExternalDeps {
    commands: Vec<Dep>,
    python: Vec<Dep>,
}

impl ExternalDeps {
    pub closed spec fn commands_view(&self) -> Seq<Dep> {
        self.commands@
    }

    pub closed spec fn python_view(&self) -> Seq<Dep> {
        self.python@
    }

    pub fn new(commands: Vec<Dep>, python: Vec<Dep>) -> (r: ExternalDeps)
        ensures
            r.commands_view() == commands@,
            r.python_view() == python@,
    {
        ExternalDeps { commands, python }
    }

    /// The commands to look for.
    pub fn commands(&self) -> (r: &Vec<Dep>)
        ensures
            r@ == self.commands_view(),
    {
        &self.commands
    }

    /// The Python modules to look for.
    pub fn python(&self) -> (r: &Vec<Dep>)
        ensures
            r@ == self.python_view(),
    {
        &self.python
    }

    /// Given which commands and which modules were found, whether all were,
    /// and a report line for each missing one, commands first.
    pub fn resolve(&self, commands_found: &Vec<bool>, python_found: &Vec<bool>) -> (r: (bool, Vec<String>))
        requires
            commands_found@.len() == self.commands_view().len(),
            python_found@.len() == self.python_view().len(),
        ensures
            r.0 == ((forall|i: int| 0 <= i < commands_found@.len() ==> #[trigger] commands_found@[i])
                && (forall|i: int| 0 <= i < python_found@.len() ==> #[trigger] python_found@[i])),
            r.1@.map_values(|s: String| s@) == missing_messages(self.commands_view(), commands_found@, false)
                + missing_messages(self.python_view(), python_found@, true),
    {
        let mut lines: Vec<String> = Vec::new();
        let good_commands = report_missing(&self.commands, commands_found, false, &mut lines);
        let ghost first = lines@.map_values(|s: String| s@);
        let good_python = report_missing(&self.python, python_found, true, &mut lines);
        assert(first =~= Seq::<Seq<char>>::empty() + missing_messages(self.commands@, commands_found@, false));
        (good_commands && good_python, lines)
    }
}

/// Appends a report line for each tool of `deps` that was not found; returns
/// whether all were found.
fn report_missing(deps: &Vec<Dep>, found: &Vec<bool>, python: bool, lines: &mut Vec<String>) -> (r: bool)
    requires
        found@.len() == deps@.len(),
    ensures
        r == (forall|i: int| 0 <= i < found@.len() ==> #[trigger] found@[i]),
        final(lines)@.map_values(|s: String| s@) == old(lines)@.map_values(|s: String| s@)
            + missing_messages(deps@, found@, python),
{
    let ghost start = lines@.map_values(|s: String| s@);
    let mut good = true;
    let mut i: usize = 0;
    while i < deps.len()
        invariant
            found@.len() == deps@.len(),
            i <= deps@.len(),
            start == old(lines)@.map_values(|s: String| s@),
            good == (forall|x: int| 0 <= x < i ==> #[trigger] found@[x]),
            lines@.map_values(|s: String| s@) == start + missing_messages(deps@.take(i as int), found@, python),
        decreases deps@.len() - i,
    {
        let ghost before = lines@.map_values(|s: String| s@);
        let d = &deps[i];
        assert(deps@.take(i + 1).drop_last() =~= deps@.take(i as int));
        assert(deps@.take(i + 1).last() == *d);
        if !found[i] {
            let quoted = debug_quoted(d.name());
            let mut line = if python {
                proof {
                    reveal_strlit("Missing python module ");
                    reveal_strlit(". Installation:\n\t");
                }
                let mut l = String::from_str("Missing python module ");
                l.append(quoted.as_str());
                l.append(". Installation:\n\t");
                l
            } else {
                proof {
                    reveal_strlit("Missing ");
                    reveal_strlit(" command. Installation:\n\t");
                }
                let mut l = String::from_str("Missing ");
                l.append(quoted.as_str());
                l.append(" command. Installation:\n\t");
                l
            };
            let how = d.installation();
            line.append(how.as_str());
            assert(line@ =~= missing_message(*d, python));
            lines.push(line);
            assert(lines@.map_values(|s: String| s@) =~= before.push(missing_message(*d, python)));
            good = false;
        }
        i = i + 1;
    }
    assert(deps@.take(deps@.len() as int) =~= deps@);
    good
}

/// `n < 100` written with two digits.
pub open spec fn two_digits(n: nat) -> Seq<char> {
    if n < 10 {
        seq!['0'] + decimal(n)
    } else {
        decimal(n)
    }
}

/// A length of time as `M:SS`-style text: `MM:SS`, with `H:` in front once
/// there is at least an hour.
pub open spec fn duration_text(secs: nat) -> Seq<char> {
    let hours = secs / 3600;
    (if hours > 0 {
        decimal(hours) + seq![':']
    } else {
        Seq::empty()
    }) + two_digits((secs / 60) % 60) + seq![':'] + two_digits(secs % 60)
}

fn write_two_digits(n: u64, out: &mut String)
    requires
        n < 100,
    ensures
        final(out)@ == old(out)@ + two_digits(n as nat),
{
    if n < 10 {
        push_char(out, '0');
    }
    write_decimal(n, out);
    assert(out@ =~= old(out)@ + two_digits(n as nat));
}

/// `secs` seconds as `MM:SS`, or `H:MM:SS` from one hour on.
pub fn display_duration(secs: u64) -> (r: String)
    ensures
        r@ == duration_text(secs as nat),
{
    let ghost s = secs as nat;
    let mut buf = String::new();
    let hours = secs / 3600;
    if hours > 0 {
        write_decimal(hours, &mut buf);
        push_char(&mut buf, ':');
    }
    let ghost head = buf@;
    assert(head =~= (if s / 3600 > 0 {
        decimal(s / 3600) + seq![':']
    } else {
        Seq::<char>::empty()
    }));
    write_two_digits((secs / 60) % 60, &mut buf);
    push_char(&mut buf, ':');
    write_two_digits(secs % 60, &mut buf);
    assert(buf@ =~= head + two_digits((s / 60) % 60) + seq![':'] + two_digits(s % 60));
    buf
}

} // verus!
