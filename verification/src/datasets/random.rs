//! Random circuits: gates drawn at random over a few qubits, kept when the
//! two-qubit gates link all qubits together.

use crate::chance::{draw_below, fresh_id};
use crate::datasets::{DatasetError, FileWrite};
use crate::graph::{
    connected, edges_within, law_component_needs_edges, lemma_reachable_refl, reachable, single_component,
};
use crate::text::{decimal, joined, path_join, push_decimal};
use rand::rngs::SmallRng;
use vstd::prelude::*;
use vstd::string::*;

verus! {

/// One gate of a random circuit, with the qubits it acts on.
#[derive(Clone, Copy, Debug)]
pub enum Gate {
    Cx(usize, usize),
    H(usize),
    T(usize),
    /// No gate.
    Invalid,
}

/// How many draws `Gate::random` makes before it gives up: as many as the
/// machine can count.
pub const GATE_DRAW_LIMIT: usize = usize::MAX;

/// What comes of one draw of a gate.
#[derive(Clone, Copy, Debug)]
pub enum Draw {
    /// The draw gave a valid gate, which is taken.
    Accepted(Gate),
    /// The draw is thrown away and another is made.
    Again,
    /// The draw is thrown away and no more are made.
    GivenUp,
}

impl Gate {
    /// A gate that can stand in a circuit: a two-qubit gate acts on two
    /// different qubits.
    pub open spec fn valid(self) -> bool {
        match self {
            Gate::Invalid => false,
            Gate::Cx(a, b) => a != b,
            _ => true,
        }
    }

    /// Every qubit that it acts on is one of `0..n_qubits`.
    pub open spec fn within(self, n_qubits: nat) -> bool {
        match self {
            Gate::Cx(a, b) => a < n_qubits && b < n_qubits,
            Gate::H(a) => a < n_qubits,
            Gate::T(a) => a < n_qubits,
            Gate::Invalid => true,
        }
    }

    /// Its line in a circuit's text.
    pub open spec fn line(self) -> Seq<char> {
        match self {
            Gate::Cx(a, b) => "cx q["@ + decimal(a as nat) + "],q["@ + decimal(b as nat) + "];\n"@,
            Gate::H(a) => "h q["@ + decimal(a as nat) + "];\n"@,
            Gate::T(a) => "t q["@ + decimal(a as nat) + "];\n"@,
            Gate::Invalid => Seq::empty(),
        }
    }

    pub fn is_valid(&self) -> (ok: bool)
        ensures
            ok == self.valid(),
    {
        match self {
            Gate::Invalid => false,
            Gate::Cx(a, b) => *a != *b,
            _ => true,
        }
    }

    /// What a draw stands for: where `which` is zero a two-qubit gate on
    /// `first` and `second`, where it is one a single-qubit gate on `first`,
    /// and else the other single-qubit gate on `first`.
    pub open spec fn drawn(which: usize, first: usize, second: usize) -> Gate {
        if which == 0 {
            Gate::Cx(first, second)
        } else if which == 1 {
            Gate::H(first)
        } else {
            Gate::T(first)
        }
    }

    /// What a draw stands for.
    pub fn of_draw(which: usize, first: usize, second: usize) -> (gate: Gate)
        ensures
            gate == Gate::drawn(which, first, second),
    {
        if which == 0 {
            Gate::Cx(first, second)
        } else if which == 1 {
            Gate::H(first)
        } else {
            Gate::T(first)
        }
    }

    /// What comes of the draw of `which`, `first` and `second` after
    /// `earlier` draws were thrown away: a valid gate is taken, whatever
    /// came before; an invalid one is thrown away, and another draw follows
    /// unless this was the last of `GATE_DRAW_LIMIT`.
    pub open spec fn judged(earlier: nat, which: usize, first: usize, second: usize) -> Draw {
        if Gate::drawn(which, first, second).valid() {
            Draw::Accepted(Gate::drawn(which, first, second))
        } else if earlier + 1 >= GATE_DRAW_LIMIT {
            Draw::GivenUp
        } else {
            Draw::Again
        }
    }

    /// What comes of one draw, after `earlier` draws were thrown away.
    pub fn after_draw(earlier: usize, which: usize, first: usize, second: usize) -> (verdict: Draw)
        ensures
            verdict == Gate::judged(earlier as nat, which, first, second),
    {
        let gate = Gate::of_draw(which, first, second);
        if gate.is_valid() {
            Draw::Accepted(gate)
        } else if earlier >= GATE_DRAW_LIMIT - 1 {
            Draw::GivenUp
        } else {
            Draw::Again
        }
    }

    /// Draws a gate over `n_qubits` qubits: first which of the three gates it
    /// is, then its qubits, the second qubit only for a two-qubit gate. Each
    /// draw is handed to `after_draw`: the first valid gate is returned, and
    /// a two-qubit gate on one qubit twice is thrown away and all of it drawn
    /// again. There is no gate only once `GATE_DRAW_LIMIT` draws were thrown
    /// away.
    pub fn random(n_qubits: usize, rng: &mut SmallRng) -> (drawn: Option<Gate>)
        requires
            n_qubits > 0,
        ensures
            drawn matches Some(gate) ==> gate.valid() && gate.within(n_qubits as nat),
    {
        let mut earlier: usize = 0;
        loop
            invariant
                n_qubits > 0,
                earlier < GATE_DRAW_LIMIT,
            decreases GATE_DRAW_LIMIT - earlier,
        {
            let which: usize = draw_below(rng, 3);
            let first: usize = draw_below(rng, n_qubits);
            let second: usize = if which == 0 {
                draw_below(rng, n_qubits)
            } else {
                first
            };
            match Gate::after_draw(earlier, which, first, second) {
                Draw::Accepted(gate) => {
                    return Some(gate);
                },
                Draw::GivenUp => {
                    return None;
                },
                Draw::Again => {
                    earlier = earlier + 1;
                },
            }
        }
    }

    fn push_line(&self, text: &mut String)
        ensures
            final(text)@ == old(text)@ + self.line(),
    {
        match self {
            Gate::Cx(a, b) => {
                text.append("cx q[");
                push_decimal(text, *a);
                text.append("],q[");
                push_decimal(text, *b);
                text.append("];\n");
            },
            Gate::H(a) => {
                text.append("h q[");
                push_decimal(text, *a);
                text.append("];\n");
            },
            Gate::T(a) => {
                text.append("t q[");
                push_decimal(text, *a);
                text.append("];\n");
            },
            Gate::Invalid => {},
        }
    }
}

/// Every gate is valid and acts on qubits of `0..n_qubits`.
pub open spec fn gates_fit(n_qubits: nat, gates: Seq<Gate>) -> bool {
    forall|i: int| 0 <= i < gates.len() ==> (#[trigger] gates[i]).valid() && gates[i].within(n_qubits)
}

/// The qubit pairs of the two-qubit gates, in the order of the gates.
pub open spec fn entangled(gates: Seq<Gate>) -> Seq<(usize, usize)>
    decreases gates.len(),
{
    if gates.len() == 0 {
        Seq::empty()
    } else {
        match gates.last() {
            Gate::Cx(a, b) => entangled(gates.drop_last()).push((a, b)),
            _ => entangled(gates.drop_last()),
        }
    }
}

/// The first lines of a circuit's text, which declare its qubits.
pub open spec fn header(n_qubits: nat) -> Seq<char> {
    "\nOPENQASM 2.0;\ninclude \"qelib1.inc\";\nqreg q["@ + decimal(n_qubits) + "];"@
}

/// The lines of the gates, one after the other.
pub open spec fn gate_lines(gates: Seq<Gate>) -> Seq<char>
    decreases gates.len(),
{
    if gates.len() == 0 {
        Seq::empty()
    } else {
        gate_lines(gates.drop_last()) + gates.last().line()
    }
}

/// The text of the circuit of `gates` over `n_qubits` qubits.
pub open spec fn circuit(n_qubits: nat, gates: Seq<Gate>) -> Seq<char> {
    header(n_qubits) + gate_lines(gates)
}

/// `text` is the circuit of some `n_gates` fitting gates that link all of the
/// `n_qubits` qubits into one component.
pub open spec fn generated(n_qubits: nat, n_gates: nat, text: Seq<char>) -> bool {
    exists|gates: Seq<Gate>|
        gates.len() == n_gates && gates_fit(n_qubits, gates) && connected(n_qubits, entangled(gates))
            && #[trigger] circuit(n_qubits, gates) == text
}

/// The text of the circuit of `gates`, where its two-qubit gates link all
/// qubits into one component; nothing where they do not.
pub fn circuit_text(n_qubits: usize, gates: &Vec<Gate>) -> (text: Option<String>)
    requires
        gates_fit(n_qubits as nat, gates@),
    ensures
        text is Some <==> connected(n_qubits as nat, entangled(gates@)),
        text matches Some(t) ==> t@ == circuit(n_qubits as nat, gates@),
{
    let mut text = String::new();
    text.append("\nOPENQASM 2.0;\ninclude \"qelib1.inc\";\nqreg q[");
    push_decimal(&mut text, n_qubits);
    text.append("];");
    let mut pairs: Vec<(usize, usize)> = Vec::new();
    let mut at: usize = 0;
    while at < gates.len()
        invariant
            at <= gates.len(),
            gates_fit(n_qubits as nat, gates@),
            text@ == header(n_qubits as nat) + gate_lines(gates@.take(at as int)),
            pairs@ == entangled(gates@.take(at as int)),
            edges_within(n_qubits as nat, pairs@),
        decreases gates.len() - at,
    {
        let gate = gates[at];
        assert(gates@.take(at + 1).drop_last() =~= gates@.take(at as int));
        if let Gate::Cx(a, b) = gate {
            pairs.push((a, b));
        }
        gate.push_line(&mut text);
        at = at + 1;
    }
    assert(gates@.take(at as int) =~= gates@);
    if single_component(n_qubits, &pairs) {
        Some(text)
    } else {
        None
    }
}

/// Draws `n_gates` gates over `n_qubits` qubits and gives the text of their
/// circuit, or nothing where a gate could not be drawn or the gates leave
/// some qubit apart. Where there is no gate to draw nothing is left to
/// chance: the circuit is the one without gates, which is connected, since it
/// has one qubit at most.
pub fn random_circuit(n_qubits: usize, n_gates: usize, rng: &mut SmallRng) -> (text: Option<String>)
    requires
        n_qubits <= n_gates + 1,
        n_gates > 0 ==> n_qubits > 0,
    ensures
        text matches Some(t) ==> generated(n_qubits as nat, n_gates as nat, t@),
        n_gates == 0 ==> (text matches Some(t) && t@ == circuit(n_qubits as nat, Seq::empty())),
{
    let mut gates: Vec<Gate> = Vec::new();
    while gates.len() < n_gates
        invariant
            gates.len() <= n_gates,
            n_gates > 0 ==> n_qubits > 0,
            gates_fit(n_qubits as nat, gates@),
        decreases n_gates - gates.len(),
    {
        match Gate::random(n_qubits, rng) {
            Some(gate) => gates.push(gate),
            None => {
                return None;
            },
        }
    }
    proof {
        if n_gates == 0 {
            assert(gates@ =~= Seq::<Gate>::empty());
            assert forall|a: int, b: int| 0 <= a < n_qubits && 0 <= b < n_qubits implies #[trigger] reachable(
                entangled(gates@),
                a,
                b,
            ) by {
                lemma_reachable_refl(entangled(gates@), a);
            }
        }
    }
    circuit_text(n_qubits, &gates)
}

/// Whether `n_gates` gates can link `n_qubits` qubits at all: a component of
/// `n_qubits` qubits takes at least one gate less than it has qubits.
pub open spec fn linkable(n_qubits: nat, n_gates: nat) -> bool {
    n_qubits <= n_gates + 1
}

proof fn lemma_entangled_len(gates: Seq<Gate>)
    ensures
        entangled(gates).len() <= gates.len(),
    decreases gates.len(),
{
    if gates.len() > 0 {
        lemma_entangled_len(gates.drop_last());
    }
}

/// Gates that are too few link the qubits in no circuit: where `n_gates`
/// gates cannot link `n_qubits` qubits, no text is the circuit of
/// `n_gates` gates that link them. This is why such a dataset is refused
/// before anything is drawn: no draw could ever be accepted.
pub proof fn law_too_few_gates_link_nothing(n_qubits: nat, n_gates: nat, text: Seq<char>)
    requires
        !linkable(n_qubits, n_gates),
    ensures
        !generated(n_qubits, n_gates, text),
{
    if generated(n_qubits, n_gates, text) {
        let gates = choose|gates: Seq<Gate>|
            gates.len() == n_gates && gates_fit(n_qubits, gates) && connected(n_qubits, entangled(gates))
                && #[trigger] circuit(n_qubits, gates) == text;
        lemma_entangled_len(gates);
        law_component_needs_edges(n_qubits, entangled(gates));
    }
}

/// Whether `n_gates` gates can link `n_qubits` qubits at all.
pub fn can_link(n_qubits: usize, n_gates: usize) -> (ok: bool)
    ensures
        ok == linkable(n_qubits as nat, n_gates as nat),
{
    n_qubits == 0 || n_qubits - 1 <= n_gates
}

/// The most circuits that are drawn for a corpus of `n_circuits`: ten for
/// each and one more, as far as the machine can count.
pub open spec fn attempt_budget(n_circuits: nat) -> nat {
    if 10 * n_circuits + 1 <= usize::MAX {
        10 * n_circuits + 1
    } else {
        usize::MAX as nat
    }
}

/// The most circuits that are drawn for a corpus of `n_circuits`.
pub fn attempts_allowed(n_circuits: usize) -> (budget: usize)
    ensures
        budget == attempt_budget(n_circuits as nat),
{
    if n_circuits > (usize::MAX - 1) / 10 {
        usize::MAX
    } else {
        10 * n_circuits + 1
    }
}

/// Some file of `files` holds `text`.
pub open spec fn holds_text(files: Seq<FileWrite>, text: Seq<char>) -> bool {
    exists|i: int| 0 <= i < files.len() && (#[trigger] files[i]).contents@ == text
}

/// No two files of `files` hold the same text.
pub open spec fn distinct_texts(files: Seq<FileWrite>) -> bool {
    forall|i: int, j: int| 0 <= i < j < files.len() ==> (#[trigger] files[i]).contents@ != (#[trigger] files[j]).contents@
}

/// `path` names a circuit file directly inside `folder`.
pub open spec fn circuit_file_in(folder: Seq<char>, path: Seq<char>) -> bool {
    exists|id: Seq<char>| path == joined(folder, #[trigger] (id + ".qasm"@))
}

fn already_held(files: &Vec<FileWrite>, text: &String) -> (held: bool)
    ensures
        held == holds_text(files@, text@),
{
    let mut at: usize = 0;
    while at < files.len()
        invariant
            at <= files.len(),
            forall|i: int| 0 <= i < at ==> (#[trigger] files[i]).contents@ != text@,
        decreases files.len() - at,
    {
        if files[at].contents == *text {
            return true;
        }
        at = at + 1;
    }
    false
}

/// `after` is `before` with one more file at its end: the file of `text`,
/// which stands in `folder` under `id`.
pub open spec fn with_file(
    before: Seq<FileWrite>,
    after: Seq<FileWrite>,
    folder: Seq<char>,
    id: Seq<char>,
    text: Seq<char>,
) -> bool {
    &&& after.len() == before.len() + 1
    &&& after.drop_last() == before
    &&& after.last().contents@ == text
    &&& after.last().path@ == joined(folder, id + ".qasm"@)
}

/// Adds a file for `text` to `files` unless one of them holds it already,
/// and tells whether it did. The file stands in `folder` under `id`.
pub fn keep_new(files: &mut Vec<FileWrite>, folder: &str, id: &str, text: String) -> (kept: bool)
    ensures
        kept == !holds_text(old(files)@, text@),
        kept ==> with_file(old(files)@, final(files)@, folder@, id@, text@),
        !kept ==> final(files)@ == old(files)@,
        distinct_texts(old(files)@) ==> distinct_texts(final(files)@),
{
    if already_held(files, &text) {
        return false;
    }
    let mut name = id.to_owned();
    name.append(".qasm");
    let path = path_join(folder, name.as_str());
    files.push(FileWrite { path, contents: text });
    assert(final(files)@.drop_last() =~= old(files)@);
    true
}

/// How far the drawing of a dataset has come.
#[derive(Clone, Copy, Debug, PartialEq, Eq, Structural)]
pub enum Progress {
    /// Circuits are missing and attempts are left.
    Drawing,
    /// The dataset has all its circuits.
    Done,
    /// Circuits are missing and no attempt is left.
    Exhausted,
}

/// How far the drawing has come with `n_files` circuits accepted after
/// `attempts` draws, of `n_circuits` to find. Having all circuits comes
/// first: the draw that uses up the budget may still be the one that
/// completes the dataset.
pub open spec fn progress_at(n_files: nat, attempts: nat, n_circuits: nat) -> Progress {
    if n_files >= n_circuits {
        Progress::Done
    } else if attempts >= attempt_budget(n_circuits) {
        Progress::Exhausted
    } else {
        Progress::Drawing
    }
}

/// How far the drawing has come.
pub fn progress(n_files: usize, attempts: usize, n_circuits: usize) -> (now: Progress)
    ensures
        now == progress_at(n_files as nat, attempts as nat, n_circuits as nat),
{
    if n_files >= n_circuits {
        Progress::Done
    } else if attempts >= attempts_allowed(n_circuits) {
        Progress::Exhausted
    } else {
        Progress::Drawing
    }
}

/// Takes what one draw gave: `drawn` is the text of the circuit, or nothing
/// where the draw was rejected. Every draw counts as an attempt, whether it
/// was rejected, gave a circuit that is held already, or gave a new one. A
/// new circuit gets a file in `folder` under `id`. Tells how far the drawing
/// has come with that. Once the drawing has ended nothing is taken any more.
pub fn after_attempt(
    files: &mut Vec<FileWrite>,
    attempts: &mut usize,
    n_circuits: usize,
    folder: &str,
    id: &str,
    drawn: Option<String>,
) -> (now: Progress)
    ensures
        now == progress_at(final(files)@.len(), *final(attempts) as nat, n_circuits as nat),
        progress_at(old(files)@.len(), *old(attempts) as nat, n_circuits as nat) != Progress::Drawing ==> {
            &&& final(files)@ == old(files)@
            &&& *final(attempts) == *old(attempts)
        },
        progress_at(old(files)@.len(), *old(attempts) as nat, n_circuits as nat) == Progress::Drawing ==> {
            &&& *final(attempts) == *old(attempts) + 1
            &&& match drawn {
                Some(text) => if holds_text(old(files)@, text@) {
                    final(files)@ == old(files)@
                } else {
                    with_file(old(files)@, final(files)@, folder@, id@, text@)
                },
                None => final(files)@ == old(files)@,
            }
        },
        distinct_texts(old(files)@) ==> distinct_texts(final(files)@),
{
    if progress(files.len(), *attempts, n_circuits) == Progress::Drawing {
        *attempts = *attempts + 1;
        if let Some(text) = drawn {
            let _ = keep_new(files, folder, id, text);
        }
    }
    progress(files.len(), *attempts, n_circuits)
}

/// What unpacking a dataset of random circuits gave.
pub struct Unpacked {
    /// The files of the circuits that were accepted, to be written into the
    /// folder whether or not all circuits were found.
    pub files: Vec<FileWrite>,
    /// How many circuits were drawn.
    pub attempts: usize,
    /// Whether all circuits were found, or the generator was exhausted.
    pub end: Result<(), DatasetError>,
}

/// Dataset of random circuits.
pub struct RandomDataset<R> {
    circuit_folder: String,
    n_circuits: usize,
    n_qubits: usize,
    n_gates: usize,
    rng: R,
}

impl<R> RandomDataset<R> {
    /// The folder that the circuits go to.
    pub closed spec fn folder(&self) -> Seq<char> {
        self.circuit_folder@
    }

    /// How many circuits the dataset is to hold.
    pub closed spec fn circuits(&self) -> nat {
        self.n_circuits as nat
    }

    /// How many qubits each circuit has.
    pub closed spec fn qubits(&self) -> nat {
        self.n_qubits as nat
    }

    /// How many gates each circuit has.
    pub closed spec fn gates(&self) -> nat {
        self.n_gates as nat
    }

    /// Creates a new random dataset.
    pub fn new(rng: R, n_circuits: usize, n_qubits: usize, n_gates: usize, circuit_folder: String) -> (dataset: Self)
        ensures
            dataset.folder() == circuit_folder@,
            dataset.circuits() == n_circuits,
            dataset.qubits() == n_qubits,
            dataset.gates() == n_gates,
    {
        Self { rng, circuit_folder, n_circuits, n_qubits, n_gates }
    }

    pub fn circuit_folder(&self) -> (folder: &str)
        ensures
            folder@ == self.folder(),
    {
        self.circuit_folder.as_str()
    }

    /// Whether the gates of a circuit can link its qubits at all.
    pub fn feasible(&self) -> (ok: bool)
        ensures
            ok == (linkable(self.qubits(), self.gates()) && (self.gates() > 0 ==> self.qubits() > 0)),
    {
        can_link(self.n_qubits, self.n_gates) && (self.n_gates == 0 || self.n_qubits > 0)
    }
}

impl RandomDataset<SmallRng> {
    /// Draws circuits until the dataset has as many different ones as it is to
    /// hold, and gives a file for each, to be written into the folder. Each
    /// draw is handed to `after_attempt`, which counts it and keeps a circuit
    /// that is new; the drawing goes on while that tells so. It ends with all
    /// circuits, or exhausted once `attempts_allowed` circuits were drawn and
    /// some are still missing. The circuits accepted until then are given
    /// either way.
    ///
    /// Without gates nothing is left to chance. Every draw gives the one
    /// circuit without gates, which the first draw accepts and every later
    /// draw repeats: a dataset of one circuit is complete after one draw, and
    /// a larger one is exhausted with that one circuit.
    pub fn unpack(&mut self) -> (unpacked: Unpacked)
        requires
            linkable(old(self).qubits(), old(self).gates()),
            old(self).gates() > 0 ==> old(self).qubits() > 0,
        ensures
            final(self).folder() == old(self).folder(),
            final(self).circuits() == old(self).circuits(),
            final(self).qubits() == old(self).qubits(),
            final(self).gates() == old(self).gates(),
            distinct_texts(unpacked.files@),
            forall|i: int|
                0 <= i < unpacked.files@.len() ==> generated(
                    old(self).qubits(),
                    old(self).gates(),
                    (#[trigger] unpacked.files@[i]).contents@,
                ) && circuit_file_in(old(self).folder(), unpacked.files@[i].path@),
            unpacked.files@.len() <= old(self).circuits(),
            unpacked.files@.len() <= unpacked.attempts,
            unpacked.attempts <= attempt_budget(old(self).circuits()),
            unpacked.end is Ok <==> unpacked.files@.len() == old(self).circuits(),
            unpacked.end matches Err(e) ==> e == DatasetError::GenerationExhausted && unpacked.attempts
                == attempt_budget(old(self).circuits()),
            old(self).circuits() == 0 ==> unpacked.attempts == 0,
            old(self).gates() == 0 && old(self).circuits() >= 1 ==> {
                &&& unpacked.files@.len() == 1
                &&& unpacked.files@[0].contents@ == circuit(old(self).qubits(), Seq::empty())
                &&& unpacked.attempts == if old(self).circuits() == 1 {
                    1
                } else {
                    attempt_budget(old(self).circuits())
                }
            },
    {
        let mut files: Vec<FileWrite> = Vec::new();
        let mut attempts: usize = 0;
        let mut now = progress(0, 0, self.n_circuits);
        while now == Progress::Drawing
            invariant
                self.folder() == old(self).folder(),
                self.circuits() == old(self).circuits(),
                self.qubits() == old(self).qubits(),
                self.gates() == old(self).gates(),
                linkable(self.qubits(), self.gates()),
                self.gates() > 0 ==> self.qubits() > 0,
                now == progress_at(files@.len(), attempts as nat, self.circuits()),
                files@.len() <= self.circuits(),
                files@.len() <= attempts,
                attempts <= attempt_budget(self.circuits()),
                self.circuits() == 0 ==> attempts == 0,
                self.gates() == 0 && attempts == 0 ==> files@.len() == 0,
                self.gates() == 0 && attempts > 0 ==> files@.len() == 1 && files@[0].contents@ == circuit(
                    self.qubits(),
                    Seq::empty(),
                ),
                self.gates() == 0 && self.circuits() == 1 ==> attempts <= 1,
                distinct_texts(files@),
                forall|i: int|
                    0 <= i < files@.len() ==> generated(self.qubits(), self.gates(), (#[trigger] files@[i]).contents@)
                        && circuit_file_in(self.folder(), files@[i].path@),
            decreases attempt_budget(self.circuits()) - attempts,
        {
            let drawn = random_circuit(self.n_qubits, self.n_gates, &mut self.rng);
            proof {
                if self.gates() == 0 && attempts > 0 {
                    assert(files@[0].contents@ == drawn->0@);
                    assert(holds_text(files@, drawn->0@));
                }
            }
            let id = if drawn.is_some() {
                fresh_id()
            } else {
                String::new()
            };
            let ghost before = files@;
            now = after_attempt(&mut files, &mut attempts, self.n_circuits, self.circuit_folder.as_str(), id.as_str(), drawn);
            proof {
                assert forall|i: int| 0 <= i < files@.len() implies generated(
                    self.qubits(),
                    self.gates(),
                    (#[trigger] files@[i]).contents@,
                ) && circuit_file_in(self.folder(), files@[i].path@) by {
                    if files@ != before {
                        if i < before.len() {
                            assert(files@[i] == files@.drop_last()[i]);
                        } else {
                            assert(files@.last().path@ == joined(self.folder(), id@ + ".qasm"@));
                        }
                    }
                }
            }
        }
        let end = if now == Progress::Done {
            Ok(())
        } else {
            Err(DatasetError::GenerationExhausted)
        };
        Unpacked { files, attempts, end }
    }
}

} // verus!
