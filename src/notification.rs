//! The status notifications (what they say and which earlier notification
//! they replace) and the guard that keeps cue sounds from overlapping.

use vstd::prelude::*;

use crate::command::{owned, play_cue_command, play_cue_view, Command};
use crate::device::{views, Interface, InterfaceView};
use crate::text::{decimal, push_decimal};
use crate::volume::VolumeInfo;

verus! {

/// A notification to show: the one it replaces, if any, its summary and body.
#[derive(Debug)]
pub struct NotificationRequest {
    pub id: Option<u32>,
    pub summary: String,
    pub body: String,
}

/// A notification that is shown again and again in place of itself.
pub struct NotificationWrapper {
    id: Option<u32>,
    default_summary: String,
}

impl NotificationWrapper {
    pub closed spec fn id_spec(&self) -> Option<u32> {
        self.id
    }

    pub closed spec fn default_summary_spec(&self) -> Seq<char> {
        self.default_summary@
    }

    pub fn new(id: Option<u32>, default_summary: String) -> (r: NotificationWrapper)
        ensures
            r.id_spec() == id,
            r.default_summary_spec() == default_summary@,
    {
        NotificationWrapper { id, default_summary }
    }

    /// The identifier of the notification shown last, if any.
    pub fn get_id(&self) -> (r: Option<u32>)
        ensures
            r == self.id_spec(),
    {
        self.id
    }

    /// What to show: `body` under `summary`, or under the default summary
    /// where none is given, in place of the notification shown last.
    pub fn notify(&self, summary: Option<&str>, body: &str) -> (r: NotificationRequest)
        ensures
            r.id == self.id_spec(),
            r.body@ == body@,
            r.summary@ == match summary {
                Some(s) => s@,
                None => self.default_summary_spec(),
            },
    {
        let summary = match summary {
            Some(s) => owned(s),
            None => self.default_summary.clone(),
        };
        NotificationRequest { id: self.id, summary, body: owned(body) }
    }

    /// Records the identifier under which the notification was shown.
    pub fn record_shown(&mut self, id: u32)
        ensures
            final(self).id_spec() == Some(id),
            final(self).default_summary_spec() == old(self).default_summary_spec(),
    {
        self.id = Some(id);
    }
}

/// `n` copies of `c`.
pub open spec fn repeat(c: Seq<char>, n: nat) -> Seq<char>
    decreases n,
{
    if n == 0 {
        seq![]
    } else {
        repeat(c, (n - 1) as nat) + c
    }
}

/// The number of blocks of the volume bar.
pub const NUM_BLOCKS: i32 = 20;

pub open spec fn full_blocks(volume: int) -> int {
    volume * 20 / 100
}

pub open spec fn volume_title(info: VolumeInfo) -> Seq<char> {
    "Volume ("@ + decimal(info.volume as nat) + "%"@ + (if info.muted {
        ", muted"@
    } else {
        ""@
    }) + ")"@
}

pub open spec fn block_char(muted: bool) -> Seq<char> {
    if muted {
        "░"@
    } else {
        "█"@
    }
}

/// The volume bar: the filled blocks, then the rest greyed.
pub open spec fn volume_body(info: VolumeInfo) -> Seq<char> {
    let full = full_blocks(info.volume as int);
    repeat(block_char(info.muted), full as nat) + "<span color=\"grey\">"@ + repeat(
        block_char(info.muted),
        (20 - full) as nat,
    ) + "</span>"@
}

/// Appends `n` copies of `c` to `out`.
fn push_repeat(out: &mut String, c: &str, n: i32)
    requires
        n >= 0,
    ensures
        final(out)@ == old(out)@ + repeat(c@, n as nat),
{
    let mut k: i32 = 0;
    while k < n
        invariant
            0 <= k <= n,
            out@ == old(out)@ + repeat(c@, k as nat),
        decreases n - k,
    {
        out.append(c);
        k = k + 1;
        assert(out@ =~= old(out)@ + repeat(c@, k as nat));
    }
}

/// The notification that shows the volume.
pub struct VolumeNotification {
    notification_handle: NotificationWrapper,
}

impl VolumeNotification {
    pub closed spec fn id_spec(&self) -> Option<u32> {
        self.notification_handle.id_spec()
    }

    /// A volume notification that replaces the one shown as `id`, if any.
    pub fn new(id: Option<u32>) -> (r: VolumeNotification)
        ensures
            r.id_spec() == id,
    {
        VolumeNotification { notification_handle: NotificationWrapper::new(id, owned("Volume")) }
    }

    pub fn get_id(&self) -> (r: Option<u32>)
        ensures
            r == self.id_spec(),
    {
        self.notification_handle.get_id()
    }

    /// The title and the bar of a volume notification.
    pub fn build_volume_string(info: &VolumeInfo) -> (r: (String, String))
        requires
            info.wf(),
        ensures
            r.0@ == volume_title(*info),
            r.1@ == volume_body(*info),
    {
        let full = info.volume * NUM_BLOCKS / 100;
        let empty = NUM_BLOCKS - full;
        let mut title = owned("Volume (");
        push_decimal(&mut title, info.volume as u32);
        title.append("%");
        if info.muted {
            title.append(", muted");
        }
        title.append(")");
        let character = if info.muted {
            "░"
        } else {
            "█"
        };
        let mut body = String::new();
        push_repeat(&mut body, character, full);
        body.append("<span color=\"grey\">");
        push_repeat(&mut body, character, empty);
        body.append("</span>");
        proof {
            if !info.muted {
                assert(title@ =~= "Volume ("@ + decimal(info.volume as nat) + "%"@ + ""@ + ")"@)
                    by {
                    reveal_strlit("");
                }
            }
        }
        assert(title@ =~= volume_title(*info));
        assert(body@ =~= volume_body(*info));
        (title, body)
    }

    /// The notification that shows `volume_info`.
    pub fn notify(&self, volume_info: &VolumeInfo) -> (r: NotificationRequest)
        requires
            volume_info.wf(),
        ensures
            r.id == self.id_spec(),
            r.summary@ == volume_title(*volume_info),
            r.body@ == volume_body(*volume_info),
    {
        let (title, body) = VolumeNotification::build_volume_string(volume_info);
        self.notification_handle.notify(Some(title.as_str()), body.as_str())
    }

    /// Records the identifier under which the notification was shown.
    pub fn record_shown(&mut self, id: u32)
        ensures
            final(self).id_spec() == Some(id),
    {
        self.notification_handle.record_shown(id);
    }
}

/// One line of the device notification: an arrow before the active device,
/// the others greyed.
pub open spec fn sink_line(d: InterfaceView) -> Seq<char> {
    if d.active {
        "→ "@ + d.name
    } else {
        "<span color=\"grey\">"@ + d.name + "</span>"@
    }
}

/// The lines of the device notification, joined by newlines.
pub open spec fn sink_body(ds: Seq<InterfaceView>) -> Seq<char>
    decreases ds.len(),
{
    if ds.len() == 0 {
        seq![]
    } else if ds.len() == 1 {
        sink_line(ds[0])
    } else {
        sink_body(ds.drop_last()) + "\n"@ + sink_line(ds.last())
    }
}

/// The notification that shows the output devices.
pub struct SinkNotificaton {
    notification_handle: NotificationWrapper,
}

impl SinkNotificaton {
    pub closed spec fn id_spec(&self) -> Option<u32> {
        self.notification_handle.id_spec()
    }

    pub closed spec fn default_summary_spec(&self) -> Seq<char> {
        self.notification_handle.default_summary_spec()
    }

    /// A device notification that replaces the one shown as `id`, if any.
    pub fn new(id: Option<u32>) -> (r: SinkNotificaton)
        ensures
            r.id_spec() == id,
            r.default_summary_spec() == "Audio Input"@,
    {
        SinkNotificaton {
            notification_handle: NotificationWrapper::new(id, owned("Audio Input")),
        }
    }

    pub fn get_id(&self) -> (r: Option<u32>)
        ensures
            r == self.id_spec(),
    {
        self.notification_handle.get_id()
    }

    /// The notification that a change of output has begun.
    pub fn notify_start(&self) -> (r: NotificationRequest)
        ensures
            r.id == self.id_spec(),
            r.summary@ == self.default_summary_spec(),
            r.body@ == "Changing input..."@,
    {
        self.notification_handle.notify(None, "Changing input...")
    }

    /// The notification that lists `interfaces`.
    pub fn notify(&self, interfaces: &Vec<Interface>) -> (r: NotificationRequest)
        ensures
            r.id == self.id_spec(),
            r.summary@ == self.default_summary_spec(),
            r.body@ == sink_body(views(interfaces@)),
    {
        let ghost ds = views(interfaces@);
        let mut body = String::new();
        let mut k: usize = 0;
        while k < interfaces.len()
            invariant
                ds == views(interfaces@),
                k <= interfaces.len(),
                body@ == sink_body(ds.subrange(0, k as int)),
            decreases interfaces.len() - k,
        {
            if k > 0 {
                body.append("\n");
            }
            let d = &interfaces[k];
            if d.active {
                body.append("→ ");
                body.append(d.name.as_str());
            } else {
                body.append("<span color=\"grey\">");
                body.append(d.name.as_str());
                body.append("</span>");
            }
            proof {
                let next = ds.subrange(0, k + 1);
                assert(next.drop_last() =~= ds.subrange(0, k as int));
                assert(next.last() == ds[k as int]);
                if k == 0 {
                    assert(ds.subrange(0, 0) =~= Seq::<InterfaceView>::empty());
                }
            }
            k = k + 1;
            assert(body@ =~= sink_body(ds.subrange(0, k as int)));
        }
        assert(ds.subrange(0, k as int) =~= ds);
        self.notification_handle.notify(None, body.as_str())
    }

    /// Records the identifier under which the notification was shown.
    pub fn record_shown(&mut self, id: u32)
        ensures
            final(self).id_spec() == Some(id),
            final(self).default_summary_spec() == old(self).default_summary_spec(),
    {
        self.notification_handle.record_shown(id);
    }
}


/// What a non-blocking poll of the outstanding cue process found.
#[derive(Debug, Clone, Copy, PartialEq, Eq)]
pub enum CuePoll {
    /// The process has exited.
    Finished,
    /// The process is still running.
    Running,
    /// The poll itself failed.
    Failed,
}

/// The playback state of a device that is streaming audio.
pub open spec fn streaming_state() -> Seq<char> {
    "RUNNING"@
}

/// A cue is warranted where it is forced or the device is not streaming.
pub open spec fn wants_cue(d: InterfaceView, force: bool) -> bool {
    force || d.state != streaming_state()
}

/// One request for a cue: from whether a cue process is outstanding, whether
/// a cue is warranted, and what the poll of the outstanding process found, to
/// whether one is outstanding afterwards and whether a new one is started.
pub open spec fn cue_step(outstanding: bool, wanted: bool, poll: CuePoll) -> (bool, bool) {
    if !wanted {
        (outstanding, false)
    } else if outstanding && poll != CuePoll::Finished {
        (true, false)
    } else {
        (true, true)
    }
}

/// A cue process starts only where none is outstanding or the outstanding
/// one was seen to exit, and leaves the slot busy: so no two cue processes
/// ever run at once. Of two warranted requests in a row on an idle slot, with
/// the first cue still running at the second, only the first starts a
/// process; a third, once the first was seen to exit, starts another.
pub proof fn lemma_cue_never_overlaps(outstanding: bool, d: InterfaceView, force: bool, poll: CuePoll)
    ensures
        cue_step(outstanding, wants_cue(d, force), poll).1 ==> !outstanding || poll
            == CuePoll::Finished,
        cue_step(outstanding, wants_cue(d, force), poll).1 ==> cue_step(
            outstanding,
            wants_cue(d, force),
            poll,
        ).0,
        wants_cue(d, force) ==> {
            let first = cue_step(false, true, poll);
            let second = cue_step(first.0, true, CuePoll::Running);
            let third = cue_step(second.0, true, CuePoll::Finished);
            first.1 && !second.1 && third.1
        },
{
}

/// The guard that lets at most one cue process run at a time.
pub struct SoundPlayer {
    outstanding: bool,
}

impl SoundPlayer {
    /// Whether a cue process was started and not yet seen to exit.
    pub closed spec fn busy(&self) -> bool {
        self.outstanding
    }

    /// An idle guard.
    pub fn new() -> (r: SoundPlayer)
        ensures
            !r.busy(),
    {
        SoundPlayer { outstanding: false }
    }

    /// Whether a cue process was started and not yet seen to exit.
    pub fn is_busy(&self) -> (r: bool)
        ensures
            r == self.busy(),
    {
        self.outstanding
    }

    /// Decides on a cue for `interface`: where one is warranted and no cue
    /// process is outstanding, or the outstanding one was seen by `poll` to
    /// have exited, gives the command that plays it and marks the slot busy;
    /// otherwise gives none and leaves the slot as it was.
    pub fn play_sound(&mut self, interface: &Interface, always_play_sound: bool, poll: CuePoll) -> (r:
        Option<Command>)
        ensures
            ({
                let (busy, starts) = cue_step(
                    old(self).busy(),
                    wants_cue(interface@, always_play_sound),
                    poll,
                );
                &&& final(self).busy() == busy
                &&& starts ==> r is Some && r->0@ == play_cue_view(interface.index)
                &&& !starts ==> r is None
            }),
    {
        proof {
            reveal_strlit("RUNNING");
        }
        let running = owned("RUNNING");
        if always_play_sound || interface.state != running {
            if self.outstanding {
                match poll {
                    CuePoll::Finished => {
                        self.outstanding = false;
                    },
                    CuePoll::Running => {
                        return None;
                    },
                    CuePoll::Failed => {
                        return None;
                    },
                }
            }
            self.outstanding = true;
            Some(play_cue_command(interface.index))
        } else {
            None
        }
    }

    /// Whether a cue is warranted for `interface`: where it is forced, or the
    /// device is not streaming.
    pub fn should_play(interface: &Interface, always_play_sound: bool) -> (r: bool)
        ensures
            r == wants_cue(interface@, always_play_sound),
    {
        proof {
            reveal_strlit("RUNNING");
        }
        always_play_sound || interface.state != owned("RUNNING")
    }

    /// Records that the cue process could not be started: the slot is free.
    pub fn spawn_failed(&mut self)
        ensures
            !final(self).busy(),
    {
        self.outstanding = false;
    }
}

} // verus!
