//! How the messages of a log are cut into frame groups: the rules, as a
//! state machine over mathematical values, and what holds of every run.

use crate::endian::i64_as_u64;
use crate::persistence::message::MessageSpec;
use crate::persistence::message::MessageTypeSpec;
use crate::protos::log_labeler_data::FrameSpec;
use crate::protos::log_labeler_data::PayloadSpec;
use crate::protos::messages_robocup_ssl_referee::SSL_Referee_Stage;
use vstd::prelude::*;

verus! {

/// Whether game time is active: a stage is known, and it is one of the
/// four halves.
pub open spec fn is_running(stage: Option<SSL_Referee_Stage>) -> bool {
    match stage {
        Some(stage) => stage.is_running(),
        None => false,
    }
}

/// Whether one of `frames` is a vision frame of camera `cam`.
pub open spec fn has_camera(frames: Seq<FrameSpec>, cam: u32) -> bool {
    exists|i: int| 0 <= i < frames.len() && (#[trigger] frames[i]).camera_id() == Some(cam)
}

/// Whether no two vision frames of `frames` come from the same camera.
pub open spec fn distinct_cameras(frames: Seq<FrameSpec>) -> bool {
    forall|i: int, j: int|
        0 <= i < j < frames.len() && (#[trigger] frames[i]).camera_id() is Some ==> frames[i].camera_id()
            != (#[trigger] frames[j]).camera_id()
}

/// Whether `frames` are vision frames, but for the first, which may be a
/// referee message: a group holds at most one referee message, and it
/// stands in front.
pub open spec fn referee_first(frames: Seq<FrameSpec>) -> bool {
    forall|i: int|
        0 <= i < frames.len() ==> (#[trigger] frames[i]).payload is Vision || (i == 0
            && frames[i].payload is Referee)
}

/// The camera count after a vision frame of camera `cam`: at least one
/// more than `cam`, as far as 32 bits can say.
pub open spec fn count_camera(num_cameras: u32, cam: u32) -> u32 {
    if cam == u32::MAX {
        u32::MAX
    } else if cam + 1 > num_cameras {
        (cam + 1) as u32
    } else {
        num_cameras
    }
}

/// The frame that a message becomes in the archive, if it is a referee
/// message or a vision packet.
pub open spec fn frame_of(m: MessageSpec) -> Option<FrameSpec> {
    match m.msg_type {
        MessageTypeSpec::Refbox2013(r) => Some(
            FrameSpec { timestamp: i64_as_u64(m.timestamp), payload: PayloadSpec::Referee(r) },
        ),
        MessageTypeSpec::Vision2014(w) => Some(
            FrameSpec { timestamp: i64_as_u64(m.timestamp), payload: PayloadSpec::Vision(w) },
        ),
        _ => None,
    }
}

/// The state of the cutting: the stage last announced, the frames of the
/// group that is being gathered, the groups that are closed, and the
/// camera count.
pub struct SegmenterSpec {
    pub stage: Option<SSL_Referee_Stage>,
    pub pending: Seq<FrameSpec>,
    pub groups: Seq<Seq<FrameSpec>>,
    pub num_cameras: u32,
}

impl SegmenterSpec {
    /// Before the first message.
    pub open spec fn init() -> SegmenterSpec {
        SegmenterSpec { stage: None, pending: Seq::empty(), groups: Seq::empty(), num_cameras: 0 }
    }

    /// Closes the group that is being gathered, if it holds a frame. The
    /// stage stays.
    pub open spec fn flush(self) -> SegmenterSpec {
        if self.pending.len() > 0 {
            SegmenterSpec { pending: Seq::empty(), groups: self.groups.push(self.pending), ..self }
        } else {
            self
        }
    }

    /// Whether `m` closes the group that is being gathered: a referee
    /// message of another stage, or, while game time is active, a vision
    /// packet of a camera that the group already has.
    pub open spec fn flushes(self, m: MessageSpec) -> bool {
        match m.msg_type {
            MessageTypeSpec::Refbox2013(r) => Some(r.stage) != self.stage,
            MessageTypeSpec::Vision2014(w) => is_running(self.stage) && has_camera(
                self.pending,
                w.camera_id,
            ),
            _ => false,
        }
    }

    /// Whether the frame of `m` is taken into a group: a referee message
    /// that announces a running stage other than the stage before, which
    /// opens a group; or a vision packet while game time is active. A
    /// referee message that repeats the stage is in no group.
    pub open spec fn accepts(self, m: MessageSpec) -> bool {
        match m.msg_type {
            MessageTypeSpec::Refbox2013(r) => r.stage.is_running() && Some(r.stage) != self.stage,
            MessageTypeSpec::Vision2014(_) => is_running(self.stage),
            _ => false,
        }
    }

    /// The stage after `m`.
    pub open spec fn stage_after(self, m: MessageSpec) -> Option<SSL_Referee_Stage> {
        match m.msg_type {
            MessageTypeSpec::Refbox2013(r) => Some(r.stage),
            _ => self.stage,
        }
    }

    /// The camera count after `m`.
    pub open spec fn cameras_after(self, m: MessageSpec) -> u32 {
        match m.msg_type {
            MessageTypeSpec::Vision2014(w) => if is_running(self.stage) {
                count_camera(self.num_cameras, w.camera_id)
            } else {
                self.num_cameras
            },
            _ => self.num_cameras,
        }
    }

    /// The state after one message.
    pub open spec fn step(self, m: MessageSpec) -> SegmenterSpec {
        let base = if self.flushes(m) {
            self.flush()
        } else {
            self
        };
        SegmenterSpec {
            stage: self.stage_after(m),
            pending: if self.accepts(m) {
                base.pending.push(frame_of(m)->Some_0)
            } else {
                base.pending
            },
            groups: base.groups,
            num_cameras: self.cameras_after(m),
        }
    }

    /// The state after the messages `ms`, in order.
    pub open spec fn run(self, ms: Seq<MessageSpec>) -> SegmenterSpec
        decreases ms.len(),
    {
        if ms.len() == 0 {
            self
        } else {
            self.run(ms.drop_last()).step(ms.last())
        }
    }

    /// All frames that were taken, in the order of their groups.
    pub open spec fn frames(self) -> Seq<FrameSpec> {
        self.groups.flatten() + self.pending
    }

    /// No group, closed or not, has two vision frames of one camera, or a
    /// referee message anywhere but in front; and no closed group is
    /// empty.
    pub open spec fn inv(self) -> bool {
        &&& distinct_cameras(self.pending)
        &&& referee_first(self.pending)
        &&& forall|k: int|
            0 <= k < self.groups.len() ==> distinct_cameras(#[trigger] self.groups[k])
                && referee_first(self.groups[k]) && self.groups[k].len() > 0
    }
}

/// The groups that a log of the messages `ms` is cut into.
pub open spec fn segment(ms: Seq<MessageSpec>) -> Seq<Seq<FrameSpec>> {
    SegmenterSpec::init().run(ms).flush().groups
}

/// The stage that the last referee message of `ms` announced.
pub open spec fn stage_of(ms: Seq<MessageSpec>) -> Option<SSL_Referee_Stage>
    decreases ms.len(),
{
    if ms.len() == 0 {
        None
    } else {
        match ms.last().msg_type {
            MessageTypeSpec::Refbox2013(r) => Some(r.stage),
            _ => stage_of(ms.drop_last()),
        }
    }
}

/// The frames that are taken from the messages `ms`: those of referee
/// messages that announce a running stage other than the stage announced
/// before them, and those of vision packets that arrive while the stage
/// last announced is a running one.
pub open spec fn accepted(ms: Seq<MessageSpec>) -> Seq<FrameSpec>
    decreases ms.len(),
{
    if ms.len() == 0 {
        Seq::empty()
    } else {
        let before = accepted(ms.drop_last());
        let m = ms.last();
        let taken = match m.msg_type {
            MessageTypeSpec::Refbox2013(r) => r.stage.is_running() && Some(r.stage) != stage_of(
                ms.drop_last(),
            ),
            MessageTypeSpec::Vision2014(_) => is_running(stage_of(ms.drop_last())),
            _ => false,
        };
        if taken {
            before.push(frame_of(m)->Some_0)
        } else {
            before
        }
    }
}

/// Closing a group keeps all frames, in order.
pub proof fn lemma_flush_frames(s: SegmenterSpec)
    ensures
        s.flush().frames() == s.frames(),
        s.inv() ==> s.flush().inv(),
{
    if s.pending.len() > 0 {
        lemma_flatten_push(s.groups, s.pending);
        assert(s.flush().frames() =~= s.frames());
    }
}

/// The frames of groups, one group more.
pub proof fn lemma_flatten_push(groups: Seq<Seq<FrameSpec>>, g: Seq<FrameSpec>)
    ensures
        groups.push(g).flatten() == groups.flatten() + g,
    decreases groups.len(),
{
    if groups.len() == 0 {
        assert(groups.push(g).drop_first() =~= groups);
        assert(groups.push(g).flatten() =~= groups.flatten() + g);
    } else {
        assert(groups.push(g).drop_first() =~= groups.drop_first().push(g));
        lemma_flatten_push(groups.drop_first(), g);
        assert(groups.push(g).flatten() =~= groups.flatten() + g);
    }
}

/// One message keeps the groups free of camera duplicates, and referee
/// messages in front.
pub proof fn lemma_step_inv(s: SegmenterSpec, m: MessageSpec)
    requires
        s.inv(),
    ensures
        s.step(m).inv(),
{
    let base = if s.flushes(m) {
        s.flush()
    } else {
        s
    };
    lemma_flush_frames(s);
    let next = s.step(m);
    if s.accepts(m) {
        let f = frame_of(m)->Some_0;
        assert forall|i: int, j: int|
            0 <= i < j < next.pending.len() && (#[trigger] next.pending[i]).camera_id()
                is Some implies next.pending[i].camera_id() != (
        #[trigger] next.pending[j]).camera_id() by {
            if j == base.pending.len() {
                if f.camera_id() is Some {
                    assert(base.pending[i].camera_id() != f.camera_id());
                }
            } else {
                assert(base.pending[i].camera_id() != base.pending[j].camera_id());
            }
        }
        assert forall|i: int| 0 <= i < next.pending.len() implies (
        #[trigger] next.pending[i]).payload is Vision || (i == 0 && next.pending[i].payload
            is Referee) by {
            if i < base.pending.len() {
                assert(base.pending[i].payload is Vision || (i == 0 && base.pending[i].payload
                    is Referee));
            }
        }
    }
}

/// Groups that are closed stay as they are: one message adds at most one
/// group, after them.
pub proof fn lemma_step_groups(s: SegmenterSpec, m: MessageSpec)
    ensures
        s.step(m).groups == s.groups || s.step(m).groups == s.groups.push(s.pending),
        s.step(m).groups != s.groups ==> s.flushes(m) && s.pending.len() > 0,
{
    if s.step(m).groups != s.groups {
        if s.pending.len() == 0 || !s.flushes(m) {
            assert(s.step(m).groups =~= s.groups);
        }
    }
}

/// No two vision frames of one group of a log come from the same camera,
/// whatever the messages are; and every group holds a frame, at most one
/// of them a referee message, and that one in front.
pub proof fn lemma_no_camera_duplicates(ms: Seq<MessageSpec>)
    ensures
        SegmenterSpec::init().run(ms).inv(),
        forall|k: int| 0 <= k < segment(ms).len() ==> distinct_cameras(#[trigger] segment(ms)[k]),
        forall|k: int|
            0 <= k < segment(ms).len() ==> referee_first(#[trigger] segment(ms)[k]) && segment(
                ms,
            )[k].len() > 0,
    decreases ms.len(),
{
    let s = SegmenterSpec::init().run(ms);
    if ms.len() > 0 {
        lemma_no_camera_duplicates(ms.drop_last());
        lemma_step_inv(SegmenterSpec::init().run(ms.drop_last()), ms.last());
    }
    lemma_flush_frames(s);
}

/// Every group of a log holds a frame; at most one of its frames is a
/// referee message, and that one is the first; all others are vision
/// frames, no two of them from the same camera. This holds whatever the
/// messages are, also where referee messages repeat a running stage.
pub proof fn lemma_group_shape(ms: Seq<MessageSpec>)
    ensures
        forall|k: int|
            0 <= k < segment(ms).len() ==> (#[trigger] segment(ms)[k]).len() > 0 && referee_first(
                segment(ms)[k],
            ) && distinct_cameras(segment(ms)[k]),
{
    lemma_no_camera_duplicates(ms);
}

/// The groups of a log hold exactly the frames that are taken from its
/// messages, in the order of arrival: a vision packet that arrives while
/// no running stage is announced is in no group, nor is a referee message
/// of a stage that is not running, nor one that repeats the stage; and
/// the stage is that of the last referee message, running or not.
pub proof fn lemma_stage_gating(ms: Seq<MessageSpec>)
    ensures
        SegmenterSpec::init().run(ms).frames() == accepted(ms),
        SegmenterSpec::init().run(ms).stage == stage_of(ms),
        segment(ms).flatten() == accepted(ms),
    decreases ms.len(),
{
    let s = SegmenterSpec::init().run(ms);
    if ms.len() == 0 {
        assert(s.groups.flatten() =~= Seq::<FrameSpec>::empty());
        assert(s.frames() =~= accepted(ms));
    } else {
        let prev = SegmenterSpec::init().run(ms.drop_last());
        let m = ms.last();
        lemma_stage_gating(ms.drop_last());
        lemma_flush_frames(prev);
        let base = if prev.flushes(m) {
            prev.flush()
        } else {
            prev
        };
        if prev.accepts(m) {
            assert(s.frames() =~= base.frames().push(frame_of(m)->Some_0));
        } else {
            assert(s.frames() =~= base.frames());
        }
    }
    lemma_flush_frames(s);
    assert(s.flush().frames() =~= s.flush().groups.flatten());
}

/// A vision packet that arrives while no running stage is announced
/// changes nothing.
pub proof fn lemma_vision_while_not_running(s: SegmenterSpec, m: MessageSpec)
    requires
        m.msg_type is Vision2014,
        !is_running(s.stage),
    ensures
        s.step(m) == s,
{
}

/// A referee message of a stage that is not running adds no frame; it
/// sets the stage, and where the stage is another than before, it closes
/// the group that was being gathered.
pub proof fn lemma_referee_not_running(s: SegmenterSpec, m: MessageSpec)
    requires
        m.msg_type matches MessageTypeSpec::Refbox2013(r) && !r.stage.is_running(),
    ensures
        s.step(m).stage == Some(m.msg_type->Refbox2013_0.stage),
        s.step(m).frames() == s.frames(),
        s.step(m).num_cameras == s.num_cameras,
        s.stage != s.step(m).stage ==> s.step(m).pending.len() == 0 && s.step(m).groups
            == s.flush().groups,
        s.stage == s.step(m).stage ==> s.step(m) == s,
{
    lemma_flush_frames(s);
}

/// A referee message that repeats the stage announced before it changes
/// nothing: it closes no group and joins none.
pub proof fn lemma_referee_same_stage(s: SegmenterSpec, m: MessageSpec)
    requires
        m.msg_type matches MessageTypeSpec::Refbox2013(r) && Some(r.stage) == s.stage,
    ensures
        s.step(m) == s,
{
}

/// Where a referee message announces another stage than the one before,
/// a group ends: the frames gathered so far are closed as a group, and
/// the next group starts with the referee message, if its stage is a
/// running one, and is empty if not. The groups closed before stay, in
/// front.
pub proof fn lemma_stage_change_flush(s: SegmenterSpec, m: MessageSpec)
    requires
        m.msg_type matches MessageTypeSpec::Refbox2013(r) && Some(r.stage) != s.stage,
    ensures
        s.step(m).groups == s.flush().groups,
        s.pending.len() > 0 ==> s.step(m).groups == s.groups.push(s.pending),
        m.msg_type->Refbox2013_0.stage.is_running() ==> s.step(m).pending == seq![
            frame_of(m)->Some_0,
        ],
        !m.msg_type->Refbox2013_0.stage.is_running() ==> s.step(m).pending == Seq::<
            FrameSpec,
        >::empty(),
{
    if m.msg_type->Refbox2013_0.stage.is_running() {
        assert(s.step(m).pending =~= seq![frame_of(m)->Some_0]);
    }
}

} // verus!
