//! The graph store: nodes, their ports and the wires between them, held in
//! flat arenas and named by index.

use vstd::prelude::*;
use crate::catalog::{
    black_pixel_model, input_roles, output_kinds, role_default, role_kind, role_policy,
    InputParamKind, NodeTemplate, PortRole,
};
use crate::value::{fits, DataType, Value};

verus! {

/// An input port: its node, declared kind, policy, inline value, and the
/// output that feeds it, if any.
#[derive(Debug)]
pub struct InputPort {
    pub node: usize,
    pub kind: DataType,
    pub policy: InputParamKind,
    pub value: Value,
    pub connection: Option<usize>,
}

/// An output port: its node, its place in that node's list of outputs,
/// and its declared kind.
#[derive(Clone, Copy, Debug, PartialEq, Eq)]
pub struct OutputPort {
    pub node: usize,
    pub slot: usize,
    pub kind: DataType,
}

/// A node: its template and the indices of its ports, in the template's
/// order. A removed node keeps its index, and no wire touches it.
#[derive(Debug)]
pub struct Node {
    pub template: NodeTemplate,
    pub inputs: Vec<usize>,
    pub outputs: Vec<usize>,
    pub removed: bool,
}

/// A graph of nodes. Each port belongs to exactly one node, and each input
/// has at most one incoming wire.
#[derive(Debug)]
pub struct Graph {
    pub nodes: Vec<Node>,
    pub inputs: Vec<InputPort>,
    pub outputs: Vec<OutputPort>,
}

/// Why a wire was refused.
#[derive(Clone, Copy, PartialEq, Eq, Structural, Debug)]
pub enum ConnectError {
    /// One of the two ports does not exist or belongs to a removed node.
    UnknownPort,
    /// The input takes an inline value only.
    ConstantOnly,
    /// The two ports declare different kinds.
    KindMismatch,
}

/// The default value of every role is well formed.
proof fn lemma_role_default_wf(r: PortRole)
    ensures
        role_default(r).wf(),
{
    assert(black_pixel_model().pixels.len() == 1);
    match r {
        PortRole::Slice { color } => {
            assert(seq![0u8].len() == 1);
        },
        _ => {},
    }
}

impl Graph {
    /// Every index points into its arena, each port points back to the
    /// node that lists it (an output at its slot), a node lists no output
    /// twice, every inline value is well formed, and no wire touches a
    /// removed node.
    pub open spec fn wf(&self) -> bool {
        &&& forall|n: int, k: int|
            0 <= n < self.nodes@.len() && 0 <= k < self.nodes@[n].inputs@.len() ==> {
                let i = #[trigger] self.nodes@[n].inputs@[k];
                i < self.inputs@.len() && self.inputs@[i as int].node == n
            }
        &&& forall|n: int, k: int|
            0 <= n < self.nodes@.len() && 0 <= k < self.nodes@[n].outputs@.len() ==> {
                let o = #[trigger] self.nodes@[n].outputs@[k];
                o < self.outputs@.len() && self.outputs@[o as int].node == n
            }
        &&& forall|n: int, k1: int, k2: int|
            0 <= n < self.nodes@.len() && 0 <= k1 < self.nodes@[n].outputs@.len() && 0 <= k2
                < self.nodes@[n].outputs@.len() && k1 != k2 ==> self.nodes@[n].outputs@[k1]
                != self.nodes@[n].outputs@[k2]
        &&& forall|i: int|
            0 <= i < self.inputs@.len() ==> #[trigger] self.inputs@[i].node < self.nodes@.len()
                && self.inputs@[i].value.wf() && match self.inputs@[i].connection {
                Some(o) => o < self.outputs@.len(),
                None => true,
            }
        &&& forall|o: int|
            0 <= o < self.outputs@.len() ==> #[trigger] self.outputs@[o].node < self.nodes@.len()
                && self.outputs@[o].slot < self.nodes@[self.outputs@[o].node as int].outputs@.len()
                && self.nodes@[self.outputs@[o].node as int].outputs@[self.outputs@[o].slot as int]
                == o
        &&& forall|i: int|
            0 <= i < self.inputs@.len() ==> match #[trigger] self.inputs@[i].connection {
                Some(o) => !self.nodes@[self.outputs@[o as int].node as int].removed
                    && !self.nodes@[self.inputs@[i].node as int].removed,
                None => true,
            }
    }

    /// Whether output `o` and input `i` exist on nodes that are not removed.
    pub open spec fn live_ports(&self, o: int, i: int) -> bool {
        &&& 0 <= o < self.outputs@.len()
        &&& 0 <= i < self.inputs@.len()
        &&& !self.nodes@[self.outputs@[o].node as int].removed
        &&& !self.nodes@[self.inputs@[i].node as int].removed
    }

    /// A node freshly built from template `t` stands at index `n`: its
    /// ports are new, unwired, and hold the template's defaults.
    pub open spec fn built_from(&self, n: int, t: NodeTemplate) -> bool {
        let node = self.nodes@[n];
        &&& node.template == t
        &&& !node.removed
        &&& node.inputs@.len() == input_roles(t).len()
        &&& node.outputs@.len() == output_kinds(t).len()
        &&& forall|k: int|
            0 <= k < node.inputs@.len() ==> {
                let p = self.inputs@[#[trigger] node.inputs@[k] as int];
                &&& p.kind == role_kind(input_roles(t)[k])
                &&& p.policy == role_policy(input_roles(t)[k])
                &&& p.value@ == role_default(input_roles(t)[k])
                &&& p.connection is None
            }
        &&& forall|k: int|
            0 <= k < node.outputs@.len() ==> self.outputs@[#[trigger] node.outputs@[k] as int].kind
                == output_kinds(t)[k]
    }

    /// An empty graph.
    pub fn new() -> (r: Graph)
        ensures
            r.wf(),
            r.nodes@.len() == 0,
            r.inputs@.len() == 0,
            r.outputs@.len() == 0,
    {
        Graph { nodes: Vec::new(), inputs: Vec::new(), outputs: Vec::new() }
    }

    /// Add a node built from template `t`; returns its index. Nothing else
    /// in the graph changes.
    pub fn add_node(&mut self, t: NodeTemplate) -> (r: usize)
        requires
            old(self).wf(),
            old(self).nodes@.len() < usize::MAX,
            old(self).inputs@.len() + 3 < usize::MAX,
            old(self).outputs@.len() + 3 < usize::MAX,
        ensures
            final(self).wf(),
            r == old(self).nodes@.len(),
            final(self).nodes@.len() == old(self).nodes@.len() + 1,
            final(self).nodes@.take(r as int) == old(self).nodes@,
            final(self).inputs@.take(old(self).inputs@.len() as int) == old(self).inputs@,
            final(self).outputs@.take(old(self).outputs@.len() as int) == old(self).outputs@,
            final(self).built_from(r as int, t),
    {
        let n = self.nodes.len();
        let roles = t.input_roles();
        let kinds = t.output_kinds();
        let ghost old_inputs = self.inputs@;
        let ghost old_outputs = self.outputs@;
        let mut in_ids: Vec<usize> = Vec::new();
        for k in 0..roles.len()
            invariant
                n == self.nodes@.len(),
                self.nodes@ == old(self).nodes@,
                self.outputs@ == old_outputs,
                old(self).wf(),
                old_inputs == old(self).inputs@,
                roles@ == input_roles(t),
                roles@.len() <= 3,
                old_inputs.len() + 3 < usize::MAX,
                self.inputs@.len() == old_inputs.len() + k,
                self.inputs@.take(old_inputs.len() as int) == old_inputs,
                in_ids@.len() == k,
                forall|j: int| 0 <= j < k ==> #[trigger] in_ids@[j] == old_inputs.len() + j,
                forall|j: int|
                    0 <= j < k ==> {
                        let p = #[trigger] self.inputs@[old_inputs.len() + j];
                        &&& p.node == n
                        &&& p.kind == role_kind(roles@[j])
                        &&& p.policy == role_policy(roles@[j])
                        &&& p.value@ == role_default(roles@[j])
                        &&& p.connection is None
                    },
        {
            let role = roles[k];
            let id = self.inputs.len();
            let port = InputPort {
                node: n,
                kind: role.data_type(),
                policy: role.policy(),
                value: role.default_value(),
                connection: None,
            };
            self.inputs.push(port);
            in_ids.push(id);
            assert(self.inputs@.take(old_inputs.len() as int) =~= old_inputs);
        }
        let mut out_ids: Vec<usize> = Vec::new();
        for k in 0..kinds.len()
            invariant
                n == self.nodes@.len(),
                self.nodes@ == old(self).nodes@,
                old(self).wf(),
                old_inputs == old(self).inputs@,
                old_outputs == old(self).outputs@,
                roles@ == input_roles(t),
                self.inputs@.len() == old_inputs.len() + roles@.len(),
                self.inputs@.take(old_inputs.len() as int) == old_inputs,
                in_ids@.len() == roles@.len(),
                forall|j: int| 0 <= j < roles@.len() ==> #[trigger] in_ids@[j] == old_inputs.len() + j,
                forall|j: int|
                    0 <= j < roles@.len() ==> {
                        let p = #[trigger] self.inputs@[old_inputs.len() + j];
                        &&& p.node == n
                        &&& p.kind == role_kind(roles@[j])
                        &&& p.policy == role_policy(roles@[j])
                        &&& p.value@ == role_default(roles@[j])
                        &&& p.connection is None
                    },
                kinds@ == output_kinds(t),
                kinds@.len() <= 3,
                old_outputs.len() + 3 < usize::MAX,
                self.outputs@.len() == old_outputs.len() + k,
                self.outputs@.take(old_outputs.len() as int) == old_outputs,
                out_ids@.len() == k,
                forall|j: int| 0 <= j < k ==> #[trigger] out_ids@[j] == old_outputs.len() + j,
                forall|j: int|
                    0 <= j < k ==> {
                        let p = #[trigger] self.outputs@[old_outputs.len() + j];
                        &&& p.node == n
                        &&& p.slot == j
                        &&& p.kind == kinds@[j]
                    },
        {
            let id = self.outputs.len();
            self.outputs.push(OutputPort { node: n, slot: k, kind: kinds[k] });
            out_ids.push(id);
            assert(self.outputs@.take(old_outputs.len() as int) =~= old_outputs);
        }
        let ghost mid_nodes = self.nodes@;
        self.nodes.push(Node { template: t, inputs: in_ids, outputs: out_ids, removed: false });
        assert(self.nodes@.take(n as int) =~= mid_nodes);
        assert forall|m: int, k: int|
            0 <= m < self.nodes@.len() && 0 <= k < self.nodes@[m].inputs@.len() implies {
                let i = #[trigger] self.nodes@[m].inputs@[k];
                i < self.inputs@.len() && self.inputs@[i as int].node == m
            } by {
            if m < n {
                assert(self.nodes@[m] == old(self).nodes@[m]);
                assert(old(self).nodes@[m].inputs@[k] < old(self).inputs@.len());
                assert(self.inputs@.take(old_inputs.len() as int)[self.nodes@[m].inputs@[k] as int] == self.inputs@[self.nodes@[m].inputs@[k] as int]);
                assert(self.inputs@[self.nodes@[m].inputs@[k] as int] == old_inputs[self.nodes@[m].inputs@[k] as int]);
            }
        }
        assert forall|m: int, k: int|
            0 <= m < self.nodes@.len() && 0 <= k < self.nodes@[m].outputs@.len() implies {
                let o = #[trigger] self.nodes@[m].outputs@[k];
                o < self.outputs@.len() && self.outputs@[o as int].node == m
            } by {
            if m < n {
                assert(self.nodes@[m] == old(self).nodes@[m]);
                assert(old(self).nodes@[m].outputs@[k] < old(self).outputs@.len());
                assert(self.outputs@.take(old_outputs.len() as int)[self.nodes@[m].outputs@[k] as int] == self.outputs@[self.nodes@[m].outputs@[k] as int]);
                assert(self.outputs@[self.nodes@[m].outputs@[k] as int] == old_outputs[self.nodes@[m].outputs@[k] as int]);
            }
        }
        assert forall|i: int| 0 <= i < self.inputs@.len() implies #[trigger] self.inputs@[i].node
            < self.nodes@.len() && self.inputs@[i].value.wf() && match self.inputs@[i].connection {
            Some(o) => o < self.outputs@.len(),
            None => true,
        } by {
            if i < old_inputs.len() {
                assert(self.inputs@.take(old_inputs.len() as int)[i] == self.inputs@[i]);
                assert(self.inputs@[i] == old_inputs[i]);
                assert(old(self).inputs@[i].node < old(self).nodes@.len());
            } else {
                let j = i - old_inputs.len();
                assert(self.inputs@[old_inputs.len() + j].node == n);
                lemma_role_default_wf(roles@[j]);
            }
        }
        assert forall|o: int| 0 <= o < self.outputs@.len() implies #[trigger] self.outputs@[o].node
            < self.nodes@.len() && self.outputs@[o].slot < self.nodes@[self.outputs@[o].node as int].outputs@.len()
            && self.nodes@[self.outputs@[o].node as int].outputs@[self.outputs@[o].slot as int] == o by {
            if o < old_outputs.len() {
                assert(self.outputs@.take(old_outputs.len() as int)[o] == self.outputs@[o]);
                assert(self.outputs@[o] == old_outputs[o]);
                assert(old(self).outputs@[o].node < old(self).nodes@.len());
                assert(self.nodes@[self.outputs@[o].node as int] == old(self).nodes@[self.outputs@[o].node as int]);
            } else {
                let j = o - old_outputs.len();
                assert(self.outputs@[old_outputs.len() + j].node == n);
                assert(self.outputs@[old_outputs.len() + j].slot == j);
                assert(self.nodes@[n as int].outputs@[j] == old_outputs.len() + j);
            }
        }
        assert forall|i: int| 0 <= i < self.inputs@.len() implies match #[trigger] self.inputs@[i].connection {
            Some(o) => !self.nodes@[self.outputs@[o as int].node as int].removed
                && !self.nodes@[self.inputs@[i].node as int].removed,
            None => true,
        } by {
            if i < old_inputs.len() {
                assert(self.inputs@.take(old_inputs.len() as int)[i] == self.inputs@[i]);
                assert(self.inputs@[i] == old_inputs[i]);
                assert(old(self).inputs@[i].node < old(self).nodes@.len());
                assert(self.nodes@[self.inputs@[i].node as int] == old(self).nodes@[self.inputs@[i].node as int]);
                match self.inputs@[i].connection {
                    Some(o) => {
                        assert(old(self).outputs@[o as int].node < old(self).nodes@.len());
                        assert(self.outputs@.take(old_outputs.len() as int)[o as int] == self.outputs@[o as int]);
                        assert(self.nodes@[self.outputs@[o as int].node as int] == old(self).nodes@[old(self).outputs@[o as int].node as int]);
                    },
                    None => {},
                }
            } else {
                let j = i - old_inputs.len();
                assert(self.inputs@[old_inputs.len() + j].connection is None);
            }
        }
        n
    }

    /// Wire output `output` into input `input`, replacing the wire the input
    /// had. Refused when a port does not exist, when the input takes an
    /// inline value only, or when the declared kinds differ; the graph is
    /// then unchanged.
    pub fn connect(&mut self, output: usize, input: usize) -> (r: Result<(), ConnectError>)
        requires
            old(self).wf(),
        ensures
            final(self).wf(),
            final(self).nodes@ == old(self).nodes@,
            final(self).outputs@ == old(self).outputs@,
            final(self).inputs@.len() == old(self).inputs@.len(),
            !old(self).live_ports(output as int, input as int) ==> r == Err::<(), ConnectError>(
                ConnectError::UnknownPort,
            ),
            old(self).live_ports(output as int, input as int) ==> {
                let ip = old(self).inputs@[input as int];
                let op = old(self).outputs@[output as int];
                if ip.policy == InputParamKind::ConstantOnly {
                    r == Err::<(), ConnectError>(ConnectError::ConstantOnly)
                } else if ip.kind != op.kind {
                    r == Err::<(), ConnectError>(ConnectError::KindMismatch)
                } else {
                    r is Ok
                }
            },
            r is Err ==> final(self).inputs@ == old(self).inputs@,
            r is Ok ==> final(self).inputs@ == old(self).inputs@.update(
                input as int,
                InputPort { connection: Some(output), ..old(self).inputs@[input as int] },
            ),
    {
        if output >= self.outputs.len() || input >= self.inputs.len() {
            return Err(ConnectError::UnknownPort);
        }
        proof {
            assert(self.outputs@[output as int].node < self.nodes@.len());
            assert(self.inputs@[input as int].node < self.nodes@.len());
        }
        if self.nodes[self.outputs[output].node].removed || self.nodes[self.inputs[input].node].removed {
            return Err(ConnectError::UnknownPort);
        }
        if self.inputs[input].policy == InputParamKind::ConstantOnly {
            return Err(ConnectError::ConstantOnly);
        }
        if self.inputs[input].kind != self.outputs[output].kind {
            return Err(ConnectError::KindMismatch);
        }
        self.inputs[input].connection = Some(output);
        assert forall|i: int| 0 <= i < self.inputs@.len() implies #[trigger] self.inputs@[i].node
            < self.nodes@.len() && self.inputs@[i].value.wf() && match self.inputs@[i].connection {
            Some(o) => o < self.outputs@.len(),
            None => true,
        } by {
            if i != input {
                assert(self.inputs@[i] == old(self).inputs@[i]);
            }
        }
        assert forall|m: int, k: int|
            0 <= m < self.nodes@.len() && 0 <= k < self.nodes@[m].inputs@.len() implies {
                let i = #[trigger] self.nodes@[m].inputs@[k];
                i < self.inputs@.len() && self.inputs@[i as int].node == m
            } by {
            let i = self.nodes@[m].inputs@[k];
            assert(old(self).nodes@[m].inputs@[k] < old(self).inputs@.len());
            if i != input {
                assert(self.inputs@[i as int] == old(self).inputs@[i as int]);
            }
        }
        assert forall|i: int| 0 <= i < self.inputs@.len() implies match #[trigger] self.inputs@[i].connection {
            Some(o) => !self.nodes@[self.outputs@[o as int].node as int].removed
                && !self.nodes@[self.inputs@[i].node as int].removed,
            None => true,
        } by {
            if i != input {
                assert(self.inputs@[i] == old(self).inputs@[i]);
            }
        }
        Ok(())
    }

    /// Remove the wire into input `input`, if there is one.
    pub fn disconnect(&mut self, input: usize)
        requires
            old(self).wf(),
        ensures
            final(self).wf(),
            final(self).nodes@ == old(self).nodes@,
            final(self).outputs@ == old(self).outputs@,
            input < old(self).inputs@.len() ==> final(self).inputs@ == old(self).inputs@.update(
                input as int,
                InputPort { connection: None, ..old(self).inputs@[input as int] },
            ),
            input >= old(self).inputs@.len() ==> final(self).inputs@ == old(self).inputs@,
    {
        if input < self.inputs.len() {
            self.inputs[input].connection = None;
            assert forall|i: int| 0 <= i < self.inputs@.len() implies #[trigger] self.inputs@[i].node
                < self.nodes@.len() && self.inputs@[i].value.wf() && match self.inputs@[i].connection {
                Some(o) => o < self.outputs@.len(),
                None => true,
            } by {
                if i != input {
                    assert(self.inputs@[i] == old(self).inputs@[i]);
                }
            }
            assert forall|m: int, k: int|
                0 <= m < self.nodes@.len() && 0 <= k < self.nodes@[m].inputs@.len() implies {
                    let i = #[trigger] self.nodes@[m].inputs@[k];
                    i < self.inputs@.len() && self.inputs@[i as int].node == m
                } by {
                let i = self.nodes@[m].inputs@[k];
                assert(old(self).nodes@[m].inputs@[k] < old(self).inputs@.len());
                if i != input {
                    assert(self.inputs@[i as int] == old(self).inputs@[i as int]);
                }
            }
            assert forall|i: int| 0 <= i < self.inputs@.len() implies match #[trigger] self.inputs@[i].connection {
                Some(o) => !self.nodes@[self.outputs@[o as int].node as int].removed
                    && !self.nodes@[self.inputs@[i].node as int].removed,
                None => true,
            } by {
                if i != input {
                    assert(self.inputs@[i] == old(self).inputs@[i]);
                }
            }
        }
    }

    /// Replace the inline value of input `input`; refused, with nothing
    /// changed, when the input does not exist, the value does not suit the
    /// input's declared kind, or an image in it is malformed.
    pub fn set_value(&mut self, input: usize, value: Value) -> (r: bool)
        requires
            old(self).wf(),
        ensures
            final(self).wf(),
            final(self).nodes@ == old(self).nodes@,
            final(self).outputs@ == old(self).outputs@,
            r == (input < old(self).inputs@.len() && fits(
                old(self).inputs@[input as int].kind,
                value@,
            ) && value.wf()),
            r ==> final(self).inputs@.len() == old(self).inputs@.len() && final(self).inputs@[input as int].value@ == value@
                && final(self).inputs@[input as int].node == old(self).inputs@[input as int].node
                && final(self).inputs@[input as int].kind == old(self).inputs@[input as int].kind
                && final(self).inputs@[input as int].policy == old(self).inputs@[input as int].policy
                && final(self).inputs@[input as int].connection == old(self).inputs@[input as int].connection
                && forall|i: int| 0 <= i < old(self).inputs@.len() && i != input ==> final(self).inputs@[i] == old(self).inputs@[i],
            !r ==> final(self).inputs@ == old(self).inputs@,
    {
        if input < self.inputs.len() && value.fits(self.inputs[input].kind) && value.is_well_formed() {
            self.inputs[input].value = value;
            assert forall|i: int| 0 <= i < self.inputs@.len() implies #[trigger] self.inputs@[i].node
                < self.nodes@.len() && self.inputs@[i].value.wf() && match self.inputs@[i].connection {
                Some(o) => o < self.outputs@.len(),
                None => true,
            } by {
                if i != input {
                    assert(self.inputs@[i] == old(self).inputs@[i]);
                }
            }
            assert forall|m: int, k: int|
                0 <= m < self.nodes@.len() && 0 <= k < self.nodes@[m].inputs@.len() implies {
                    let i = #[trigger] self.nodes@[m].inputs@[k];
                    i < self.inputs@.len() && self.inputs@[i as int].node == m
                } by {
                let i = self.nodes@[m].inputs@[k];
                assert(old(self).nodes@[m].inputs@[k] < old(self).inputs@.len());
                if i != input {
                    assert(self.inputs@[i as int] == old(self).inputs@[i as int]);
                }
            }
            assert forall|i: int| 0 <= i < self.inputs@.len() implies match #[trigger] self.inputs@[i].connection {
                Some(o) => !self.nodes@[self.outputs@[o as int].node as int].removed
                    && !self.nodes@[self.inputs@[i].node as int].removed,
                None => true,
            } by {
                if i != input {
                    assert(self.inputs@[i] == old(self).inputs@[i]);
                }
            }
            true
        } else {
            false
        }
    }

    /// Whether removing node `n` cuts the wire into input `i`: the input
    /// belongs to `n` or is fed by one of `n`'s outputs.
    pub open spec fn touches(&self, n: int, i: int) -> bool {
        self.inputs@[i].node == n || match self.inputs@[i].connection {
            Some(o) => self.outputs@[o as int].node == n,
            None => false,
        }
    }

    /// Remove node `n`: every wire into or out of it is cut and the node is
    /// marked removed; its index and ports stay, unused. Returns whether `n`
    /// named a node that was still there (nothing changes otherwise).
    pub fn remove_node(&mut self, n: usize) -> (r: bool)
        requires
            old(self).wf(),
        ensures
            final(self).wf(),
            r == (n < old(self).nodes@.len() && !old(self).nodes@[n as int].removed),
            final(self).outputs@ == old(self).outputs@,
            final(self).nodes@.len() == old(self).nodes@.len(),
            final(self).inputs@.len() == old(self).inputs@.len(),
            !r ==> final(self).nodes@ == old(self).nodes@ && final(self).inputs@ == old(self).inputs@,
            r ==> {
                &&& final(self).nodes@[n as int].removed
                &&& final(self).nodes@[n as int].template == old(self).nodes@[n as int].template
                &&& final(self).nodes@[n as int].inputs@ == old(self).nodes@[n as int].inputs@
                &&& final(self).nodes@[n as int].outputs@ == old(self).nodes@[n as int].outputs@
                &&& forall|m: int|
                    0 <= m < old(self).nodes@.len() && m != n ==> #[trigger] final(self).nodes@[m]
                        == old(self).nodes@[m]
                &&& forall|i: int|
                    0 <= i < old(self).inputs@.len() ==> #[trigger] final(self).inputs@[i] == if old(
                        self,
                    ).touches(n as int, i) {
                        InputPort { connection: None, ..old(self).inputs@[i] }
                    } else {
                        old(self).inputs@[i]
                    }
            },
    {
        if n >= self.nodes.len() || self.nodes[n].removed {
            return false;
        }
        let count = self.inputs.len();
        for i in 0..count
            invariant
                old(self).wf(),
                n < old(self).nodes@.len(),
                count == old(self).inputs@.len(),
                self.nodes@ == old(self).nodes@,
                self.outputs@ == old(self).outputs@,
                self.inputs@.len() == count,
                forall|j: int|
                    0 <= j < i ==> #[trigger] self.inputs@[j] == if old(self).touches(n as int, j) {
                        InputPort { connection: None, ..old(self).inputs@[j] }
                    } else {
                        old(self).inputs@[j]
                    },
                forall|j: int| i <= j < count ==> #[trigger] self.inputs@[j] == old(self).inputs@[j],
        {
            proof {
                assert(self.inputs@[i as int] == old(self).inputs@[i as int]);
                assert(old(self).inputs@[i as int].node < old(self).nodes@.len());
            }
            let cut = self.inputs[i].node == n || match self.inputs[i].connection {
                Some(o) => self.outputs[o].node == n,
                None => false,
            };
            if cut {
                self.inputs[i].connection = None;
            }
        }
        self.nodes[n].removed = true;
        proof {
            assert forall|m: int, k: int|
                0 <= m < self.nodes@.len() && 0 <= k < self.nodes@[m].inputs@.len() implies {
                    let i = #[trigger] self.nodes@[m].inputs@[k];
                    i < self.inputs@.len() && self.inputs@[i as int].node == m
                } by {
                assert(self.nodes@[m].inputs@ == old(self).nodes@[m].inputs@);
                assert(old(self).nodes@[m].inputs@[k] < old(self).inputs@.len());
            }
            assert forall|m: int, k: int|
                0 <= m < self.nodes@.len() && 0 <= k < self.nodes@[m].outputs@.len() implies {
                    let o = #[trigger] self.nodes@[m].outputs@[k];
                    o < self.outputs@.len() && self.outputs@[o as int].node == m
                } by {
                assert(self.nodes@[m].outputs@ == old(self).nodes@[m].outputs@);
                assert(old(self).nodes@[m].outputs@[k] < old(self).outputs@.len());
            }
            assert forall|m: int, k1: int, k2: int|
                0 <= m < self.nodes@.len() && 0 <= k1 < self.nodes@[m].outputs@.len() && 0 <= k2
                    < self.nodes@[m].outputs@.len() && k1 != k2 implies self.nodes@[m].outputs@[k1]
                    != self.nodes@[m].outputs@[k2] by {
                assert(self.nodes@[m].outputs@ == old(self).nodes@[m].outputs@);
            }
            assert forall|i: int| 0 <= i < self.inputs@.len() implies #[trigger] self.inputs@[i].node
                < self.nodes@.len() && self.inputs@[i].value.wf() && match self.inputs@[i].connection {
                Some(o) => o < self.outputs@.len(),
                None => true,
            } by {
                assert(old(self).inputs@[i].node < old(self).nodes@.len());
            }
            assert forall|i: int| 0 <= i < self.inputs@.len() implies match #[trigger] self.inputs@[i].connection {
                Some(o) => !self.nodes@[self.outputs@[o as int].node as int].removed
                    && !self.nodes@[self.inputs@[i].node as int].removed,
                None => true,
            } by {
                assert(old(self).inputs@[i].node < old(self).nodes@.len());
                match self.inputs@[i].connection {
                    Some(o) => {
                        assert(!old(self).touches(n as int, i));
                        assert(old(self).inputs@[i].connection == Some(o));
                        assert(old(self).outputs@[o as int].node < old(self).nodes@.len());
                    },
                    None => {},
                }
            }
        }
        true
    }
}

} // verus!
