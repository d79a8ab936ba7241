//! The command line: what a user can ask for, and how the layout of a multi-head guest is read.

use vstd::prelude::*;

use crate::numeral;
use crate::numeral::{parse_i32, parse_u32};
use crate::text;
use crate::text::{split, split_once, trim};

verus! {

/// The whole command line.
#[derive(Debug)]
pub struct Cli {
    /// Print extra diagnostics while discovering VMs or running the viewer.
    pub verbose: bool,
    /// What to do.
    pub command: Command,
}

/// What the program is asked to do.
#[derive(Debug)]
pub enum Command {
    /// List visible QEMU D-Bus VMs.
    List(BusArgs),
    /// Inspect one QEMU D-Bus VM and its exported objects.
    Inspect(InspectArgs),
    /// Check the host and VM for common setup problems.
    Doctor(DoctorArgs),
    /// Open a window for one QEMU D-Bus console.
    Connect(ConnectArgs),
    /// Print the version.
    Version,
}

/// Which bus to connect to.
#[derive(Debug, Clone)]
pub struct BusArgs {
    /// D-Bus address to connect to instead of the session bus.
    pub address: Option<String>,
}

/// What `inspect` takes.
#[derive(Debug, Clone)]
pub struct InspectArgs {
    pub bus: BusArgs,
    /// VM selector: matches the QEMU VM name, UUID, or D-Bus owner.
    pub vm: Option<String>,
}

/// What `doctor` takes.
#[derive(Debug, Clone)]
pub struct DoctorArgs {
    pub bus: BusArgs,
    /// VM selector: matches the QEMU VM name, UUID, or D-Bus owner.
    pub vm: Option<String>,
}

/// What `connect` takes.
#[derive(Debug, Clone)]
pub struct ConnectArgs {
    pub bus: BusArgs,
    /// VM selector: matches the QEMU VM name, UUID, or D-Bus owner.
    pub vm: Option<String>,
    /// Console ID to open. Defaults to the first reported console.
    pub console: Option<u32>,
    /// Viewer hotkeys, for example `toggle-fullscreen=ctrl+enter,release-cursor=ctrl+alt`.
    pub hotkeys: Option<String>,
    /// Start the viewer directly in fullscreen mode.
    pub fullscreen: bool,
    /// Open the viewer without normal window decorations.
    pub undecorated: bool,
    /// Use QEMU-provided DMABUF damage rectangles instead of full-surface refreshes. This can be
    /// faster, but some guest/driver combinations may flicker.
    pub dmabuf_partial_updates: bool,
    /// Where each console of a multi-head guest sits in the guest's desktop, in guest pixels, as
    /// `ID:X,Y;ID:X,Y`.
    pub head_layout: Option<String>,
}

/// The text that an optional string holds.
pub open spec fn held_text(s: Option<String>) -> Option<Seq<char>> {
    match s {
        Some(s) => Some(s@),
        None => None,
    }
}

/// The text of an optional string slice.
pub open spec fn lent_text(s: Option<&str>) -> Option<Seq<char>> {
    match s {
        Some(s) => Some(s@),
        None => None,
    }
}

impl BusArgs {
    fn address(&self) -> (r: Option<&str>)
        ensures
            lent_text(r) == held_text(self.address),
    {
        match &self.address {
            Some(address) => Some(address.as_str()),
            None => None,
        }
    }
}

impl InspectArgs {
    /// The address of the bus, where one was given.
    pub fn address(&self) -> (r: Option<&str>)
        ensures
            lent_text(r) == held_text(self.bus.address),
    {
        self.bus.address()
    }
}

impl DoctorArgs {
    /// The address of the bus, where one was given.
    pub fn address(&self) -> (r: Option<&str>)
        ensures
            lent_text(r) == held_text(self.bus.address),
    {
        self.bus.address()
    }
}

impl ConnectArgs {
    /// The address of the bus, where one was given.
    pub fn address(&self) -> (r: Option<&str>)
        ensures
            lent_text(r) == held_text(self.bus.address),
    {
        self.bus.address()
    }
}

/// What is wrong with one entry of a head layout.
#[derive(Debug, Clone, Copy, PartialEq, Eq, Structural)]
pub enum EntryFault {
    /// It does not look like `ID:X,Y`.
    Shape,
    /// The console id is no `u32`.
    ConsoleId,
    /// The horizontal offset is no `i32`.
    X,
    /// The vertical offset is no `i32`.
    Y,
}

/// Why a head layout was refused: the first entry that cannot be read, and what is wrong with it.
#[derive(Debug, Clone, PartialEq, Eq)]
pub struct HeadLayoutError {
    pub fault: EntryFault,
    pub entry: String,
}

/// What one entry says, its blanks at the ends taken off: the console and where it sits.
pub open spec fn entry_of(entry: Seq<char>) -> Result<(u32, i32, i32), EntryFault> {
    match text::cut_once(entry, ':') {
        None => Err(EntryFault::Shape),
        Some((id, pos)) => match text::cut_once(pos, ',') {
            None => Err(EntryFault::Shape),
            Some((x, y)) => match numeral::u32_of(text::trimmed(id)) {
                None => Err(EntryFault::ConsoleId),
                Some(id) => match numeral::i32_of(text::trimmed(x)) {
                    None => Err(EntryFault::X),
                    Some(x) => match numeral::i32_of(text::trimmed(y)) {
                        None => Err(EntryFault::Y),
                        Some(y) => Ok((id, x, y)),
                    },
                },
            },
        },
    }
}

/// What a list of entries says: the consoles of the entries that are not blank, in their order,
/// or the first entry that cannot be read.
pub open spec fn entries_of(list: Seq<Seq<char>>) -> Result<
    Seq<(u32, i32, i32)>,
    (EntryFault, Seq<char>),
>
    decreases list.len(),
{
    if list.len() == 0 {
        Ok(Seq::empty())
    } else {
        let entry = text::trimmed(list.first());
        let rest = entries_of(list.drop_first());
        if entry.len() == 0 {
            rest
        } else {
            match entry_of(entry) {
                Err(fault) => Err((fault, entry)),
                Ok(head) => behind(seq![head], rest),
            }
        }
    }
}

/// What is read where the consoles `done` stand before what `rest` says.
pub open spec fn behind(
    done: Seq<(u32, i32, i32)>,
    rest: Result<Seq<(u32, i32, i32)>, (EntryFault, Seq<char>)>,
) -> Result<Seq<(u32, i32, i32)>, (EntryFault, Seq<char>)> {
    match rest {
        Ok(heads) => Ok(done + heads),
        Err(e) => Err(e),
    }
}

/// What a head layout says: entries `ID:X,Y`, separated by `;`.
pub open spec fn layout_of(spec: Seq<char>) -> Result<
    Seq<(u32, i32, i32)>,
    (EntryFault, Seq<char>),
> {
    entries_of(text::pieces(spec, ';'))
}

/// The message for an entry that cannot be read.
pub open spec fn fault_message(fault: EntryFault, entry: Seq<char>) -> Seq<char> {
    match fault {
        EntryFault::Shape => "head layout entry `"@ + entry + "` must look like ID:X,Y"@,
        EntryFault::ConsoleId => "bad console id in `"@ + entry + "`"@,
        EntryFault::X => "bad x in `"@ + entry + "`"@,
        EntryFault::Y => "bad y in `"@ + entry + "`"@,
    }
}

impl HeadLayoutError {
    /// The message for the user.
    pub fn message(&self) -> (r: String)
        ensures
            r@ == fault_message(self.fault, self.entry@),
    {
        let (before, after): (&str, &str) = match self.fault {
            EntryFault::Shape => ("head layout entry `", "` must look like ID:X,Y"),
            EntryFault::ConsoleId => ("bad console id in `", "`"),
            EntryFault::X => ("bad x in `", "`"),
            EntryFault::Y => ("bad y in `", "`"),
        };
        let mut out: String = before.to_owned();
        out.append(self.entry.as_str());
        out.append(after);
        out
    }
}

/// Reads one entry, its blanks at the ends taken off.
fn parse_entry(entry: &str) -> (r: Result<(u32, i32, i32), EntryFault>)
    ensures
        r == entry_of(entry@),
{
    let (id, pos): (&str, &str) = match split_once(entry, ':') {
        Some(parts) => parts,
        None => return Err(EntryFault::Shape),
    };
    let (x, y): (&str, &str) = match split_once(pos, ',') {
        Some(parts) => parts,
        None => return Err(EntryFault::Shape),
    };
    let id: u32 = match parse_u32(trim(id)) {
        Some(id) => id,
        None => return Err(EntryFault::ConsoleId),
    };
    let x: i32 = match parse_i32(trim(x)) {
        Some(x) => x,
        None => return Err(EntryFault::X),
    };
    let y: i32 = match parse_i32(trim(y)) {
        Some(y) => y,
        None => return Err(EntryFault::Y),
    };
    Ok((id, x, y))
}

/// Reads a head layout into `(console id, x, y)` triples. No layout at all reads as an empty one.
pub fn parse_head_layout(spec: Option<&str>) -> (r: Result<Vec<(u32, i32, i32)>, HeadLayoutError>)
    ensures
        match spec {
            None => r matches Ok(heads) && heads@.len() == 0,
            Some(spec) => match r {
                Ok(heads) => layout_of(spec@) == Ok::<_, (EntryFault, Seq<char>)>(heads@),
                Err(e) => layout_of(spec@) == Err::<Seq<(u32, i32, i32)>, _>((e.fault, e.entry@)),
            },
        },
{
    let mut out: Vec<(u32, i32, i32)> = Vec::new();
    let given: &str = match spec {
        Some(given) => given,
        None => return Ok(out),
    };
    let list: Vec<&str> = split(given, ';');
    let ghost entries = text::pieces(given@, ';');
    let mut i: usize = 0;
    proof {
        assert(entries.skip(0) =~= entries);
        assert(forall|rest: Seq<(u32, i32, i32)>| #[trigger] (out@ + rest) =~= rest);
    }
    while i < list.len()
        invariant
            i <= list.len(),
            spec == Some(given),
            entries == text::pieces(given@, ';'),
            entries == text::texts(list@),
            entries_of(entries) == behind(out@, entries_of(entries.skip(i as int))),
        decreases list.len() - i,
    {
        let entry: &str = trim(list[i]);
        let ghost rest = entries.skip(i as int);
        proof {
            assert(rest.first() == list@[i as int]@);
            assert(rest.drop_first() =~= entries.skip(i + 1));
        }
        if !entry.is_empty() {
            match parse_entry(entry) {
                Ok(head) => {
                    proof {
                        let tail = entries_of(entries.skip(i + 1));
                        if let Ok(heads) = tail {
                            assert(out@ + (seq![head] + heads) =~= out@.push(head) + heads);
                        }
                    }
                    out.push(head);
                },
                Err(fault) => {
                    return Err(HeadLayoutError { fault, entry: entry.to_owned() });
                },
            }
        }
        i += 1;
    }
    proof {
        assert(entries.skip(i as int) =~= Seq::<Seq<char>>::empty());
        assert(out@ + Seq::<(u32, i32, i32)>::empty() =~= out@);
    }
    Ok(out)
}

} // verus!
