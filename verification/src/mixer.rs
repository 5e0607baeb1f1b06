//! A mixer: a bounded queue of frames per source, of which one each is mixed at a time.
use crate::audio::{AudioError, AudioFrame, AudioModel};
use crate::gain::GainDb;
use std::collections::VecDeque;
use vstd::prelude::*;

verus! {

/// How many frames a source may have waiting unless it is told otherwise.
pub const DEFAULT_SOURCE_FRAMES: usize = 8;

/// A source's frames and its own limit.
#[derive(Debug, Clone)]
struct MixerSource {
    id: u64,
    frames: VecDeque<AudioFrame>,
    limit: Option<usize>,
}

/// A mixer.
#[derive(Debug, Clone)]
pub struct Mixer {
    sources: Vec<MixerSource>,
    gain_db: GainDb,
    muted: bool,
}

/// What a mixer gives.
#[derive(Debug, PartialEq)]
pub enum MixedFrame {
    /// The frame itself.
    Ready(AudioFrame),
    /// Frames of one shape that are to be added sample by sample; the sum is to be given the
    /// gain and limited to the range from minus one to one.
    Sum { frames: Vec<AudioFrame>, gain_db: GainDb },
}

/// The oldest frames of the sources that have any, in the order of the sources.
pub open spec fn heads(queues: Seq<Seq<AudioModel>>) -> Seq<AudioModel>
    decreases queues.len(),
{
    if queues.len() == 0 {
        Seq::empty()
    } else if queues.last().len() == 0 {
        heads(queues.drop_last())
    } else {
        heads(queues.drop_last()).push(queues.last()[0])
    }
}

/// Whether all frames have the shape of the first.
pub open spec fn uniform(frames: Seq<AudioModel>) -> bool {
    forall|i: int| 0 <= i < frames.len() ==> frames[0].matches_shape(#[trigger] frames[i])
}

/// The queues after the first `count` of them gave their oldest frame.
pub open spec fn popped(queues: Seq<Seq<AudioModel>>, count: int) -> Seq<Seq<AudioModel>> {
    Seq::new(
        queues.len(),
        |i: int|
            if i < count && queues[i].len() > 0 {
                queues[i].skip(1)
            } else {
                queues[i]
            },
    )
}

/// A queue with one frame more at its end, the oldest one dropped where it is full.
pub open spec fn queue_pushed(
    queue: Seq<AudioModel>,
    limit: usize,
    frame: AudioModel,
) -> Seq<AudioModel> {
    (if queue.len() >= limit {
        queue.skip(1)
    } else {
        queue
    }).push(frame)
}

/// The newest `limit` frames of a queue.
pub open spec fn queue_trimmed(queue: Seq<AudioModel>, limit: usize) -> Seq<AudioModel> {
    if queue.len() > limit {
        queue.skip(queue.len() - limit)
    } else {
        queue
    }
}

/// What mixing gives for frames of one shape.
pub open spec fn mix_of(
    frames: Seq<AudioModel>,
    muted: bool,
    gain_db: GainDb,
    mixed: MixedFrame,
) -> bool {
    if muted {
        mixed matches MixedFrame::Ready(frame) && frame@ == frames[0].silenced()
    } else if frames.len() == 1 && gain_db.equals(GainDb { bits: 0 }) {
        mixed matches MixedFrame::Ready(frame) && frame@ == frames[0].clipped()
    } else {
        &&& mixed matches MixedFrame::Sum { frames: parts, gain_db: gain }
        &&& gain == gain_db
        &&& crate::line_sink::audio_models(parts@) == frames
    }
}

impl Mixer {
    /// The sources in the order in which they were first named.
    pub closed spec fn order(&self) -> Seq<u64> {
        self.sources@.map_values(|source: MixerSource| source.id)
    }

    /// The queues of the sources in that order.
    pub closed spec fn queues(&self) -> Seq<Seq<AudioModel>> {
        self.sources@.map_values(
            |source: MixerSource| crate::line_sink::audio_models(source.frames@),
        )
    }

    /// The limits of the sources in that order.
    pub closed spec fn limits(&self) -> Seq<usize> {
        self.sources@.map_values(
            |source: MixerSource|
                match source.limit {
                    Some(limit) => limit,
                    None => DEFAULT_SOURCE_FRAMES,
                },
        )
    }

    /// The gain on what is mixed.
    pub closed spec fn gain(&self) -> GainDb {
        self.gain_db
    }

    /// Whether silence is mixed.
    pub closed spec fn is_muted(&self) -> bool {
        self.muted
    }

    /// Where a source stands in the order, if it was named.
    pub open spec fn place(&self, source_id: u64) -> int {
        choose|i: int| 0 <= i < self.order().len() && self.order()[i] == source_id
    }

    /// Whether a source was named.
    pub open spec fn named(&self, source_id: u64) -> bool {
        self.order().contains(source_id)
    }

    /// The frames of a source, oldest first.
    pub open spec fn queue_of(&self, source_id: u64) -> Seq<AudioModel> {
        if self.named(source_id) {
            self.queues()[self.place(source_id)]
        } else {
            Seq::empty()
        }
    }

    /// How many frames a source may have waiting.
    pub open spec fn limit_of(&self, source_id: u64) -> usize {
        if self.named(source_id) {
            self.limits()[self.place(source_id)]
        } else {
            DEFAULT_SOURCE_FRAMES
        }
    }

    /// What holds of every mixer: every source is held once, may have at least one frame
    /// waiting, and has no more than it may.
    pub closed spec fn wf(&self) -> bool {
        &&& self.order().no_duplicates()
        &&& forall|i: int| 0 <= i < self.sources@.len() ==> (#[trigger] self.limits()[i]) >= 1
        &&& forall|i: int|
            0 <= i < self.sources@.len() ==> (#[trigger] self.queues()[i]).len()
                <= self.limits()[i]
    }

    /// A source that is held at `index` is found there.
    proof fn lemma_place(&self, index: int)
        requires
            self.wf(),
            0 <= index < self.sources@.len(),
        ensures
            self.named(self.sources@[index].id),
            self.place(self.sources@[index].id) == index,
            self.queue_of(self.sources@[index].id) == self.queues()[index],
            self.limit_of(self.sources@[index].id) == self.limits()[index],
    {
        let id = self.sources@[index].id;
        assert(self.order()[index] == id);
        assert(self.order().contains(id));
        let found = self.place(id);
        assert(0 <= found < self.order().len() && self.order()[found] == id);
        assert(found == index);
    }

    /// A mixer without sources.
    pub fn new() -> (mixer: Self)
        ensures
            mixer.wf(),
            mixer.order() == Seq::<u64>::empty(),
            mixer.gain().bits == 0,
            !mixer.is_muted(),
            forall|id: u64| mixer.queue_of(id) == Seq::<AudioModel>::empty(),
            forall|id: u64| mixer.limit_of(id) == DEFAULT_SOURCE_FRAMES,
    {
        let mixer = Mixer { sources: Vec::new(), gain_db: GainDb::zero(), muted: false };
        assert(mixer.order() =~= Seq::<u64>::empty());
        mixer
    }

    fn find(&self, source_id: u64) -> (index: Option<usize>)
        requires
            self.wf(),
        ensures
            match index {
                Some(index) => {
                    &&& index < self.sources@.len()
                    &&& self.sources@[index as int].id == source_id
                    &&& self.named(source_id)
                    &&& self.place(source_id) == index
                },
                None => !self.named(source_id),
            },
    {
        let mut i: usize = 0;
        while i < self.sources.len()
            invariant
                self.wf(),
                i <= self.sources@.len(),
                forall|j: int| 0 <= j < i ==> self.order()[j] != source_id,
            decreases self.sources.len() - i,
        {
            if self.sources[i].id == source_id {
                proof {
                    self.lemma_place(i as int);
                }
                return Some(i);
            }
            i += 1;
        }
        None
    }

    /// Lets a source have at most `max_frames` frames waiting, at least one. Where more wait
    /// the oldest ones are dropped.
    pub fn set_source_max_frames(&mut self, source_id: u64, max_frames: usize)
        requires
            old(self).wf(),
        ensures
            final(self).wf(),
            final(self).named(source_id),
            final(self).limit_of(source_id) == crate::line_sink::at_least(max_frames, 1),
            final(self).queue_of(source_id) == queue_trimmed(
                old(self).queue_of(source_id),
                crate::line_sink::at_least(max_frames, 1),
            ),
            final(self).gain() == old(self).gain(),
            final(self).is_muted() == old(self).is_muted(),
            forall|id: u64|
                id != source_id ==> #[trigger] final(self).queue_of(id) == old(self).queue_of(id),
            forall|id: u64|
                id != source_id ==> #[trigger] final(self).limit_of(id) == old(self).limit_of(id),
    {
        let limit: usize = if max_frames < 1 {
            1
        } else {
            max_frames
        };
        let ghost before = *self;
        match self.find(source_id) {
            Some(index) => {
                let ghost queue = self.queues()[index as int];
                let mut source = self.sources.remove(index);
                let ghost held = source.frames@;
                source.limit = Some(limit);
                while source.frames.len() > limit
                    invariant
                        source.id == source_id,
                        source.limit == Some(limit),
                        source.frames@.len() <= held.len(),
                        source.frames@ == held.skip(held.len() - source.frames@.len()),
                        source.frames@.len() >= limit || source.frames@ == held,
                    decreases source.frames.len(),
                {
                    source.frames.pop_front();
                    assert(source.frames@ =~= held.skip(held.len() - source.frames@.len()));
                }
                let ghost kept = source;
                self.sources.insert(index, source);
                proof {
                    assert(self.sources@ =~= before.sources@.update(index as int, kept));
                    assert(queue == crate::line_sink::audio_models(held));
                    assert(crate::line_sink::audio_models(kept.frames@) =~= queue_trimmed(
                        queue,
                        limit,
                    ));
                    lemma_source_changed(&before, &*self, index as int, kept);
                }
            },
            None => {
                let added = MixerSource { id: source_id, frames: VecDeque::new(), limit: Some(limit) };
                let ghost kept = added;
                self.sources.push(added);
                proof {
                    assert(crate::line_sink::audio_models(kept.frames@) =~= Seq::empty());
                    lemma_source_added(&before, &*self, kept);
                }
            },
        }
    }

    /// Sets the gain on what is mixed.
    pub fn set_gain_db(&mut self, gain_db: GainDb)
        requires
            old(self).wf(),
        ensures
            final(self).wf(),
            final(self).gain() == gain_db,
            final(self).order() == old(self).order(),
            final(self).queues() == old(self).queues(),
            final(self).limits() == old(self).limits(),
            final(self).is_muted() == old(self).is_muted(),
    {
        self.gain_db = gain_db;
        assert(self.order() =~= old(self).order());
        assert(self.queues() =~= old(self).queues());
        assert(self.limits() =~= old(self).limits());
    }

    /// Mixes silence, or no more.
    pub fn mute(&mut self, muted: bool)
        requires
            old(self).wf(),
        ensures
            final(self).wf(),
            final(self).is_muted() == muted,
            final(self).gain() == old(self).gain(),
            final(self).order() == old(self).order(),
            final(self).queues() == old(self).queues(),
            final(self).limits() == old(self).limits(),
    {
        self.muted = muted;
        assert(self.order() =~= old(self).order());
        assert(self.queues() =~= old(self).queues());
        assert(self.limits() =~= old(self).limits());
    }

    /// Whether a source may have one frame more waiting.
    pub fn can_receive(&self, source_id: u64) -> (ready: bool)
        requires
            self.wf(),
        ensures
            ready == (self.queue_of(source_id).len() < self.limit_of(source_id)),
    {
        self.queued_frames(source_id) < self.source_frame_limit(source_id)
    }

    /// How many frames of a source wait.
    pub fn queued_frames(&self, source_id: u64) -> (count: usize)
        requires
            self.wf(),
        ensures
            count == self.queue_of(source_id).len(),
    {
        match self.find(source_id) {
            Some(index) => self.sources[index].frames.len(),
            None => 0,
        }
    }

    /// Queues a frame of a source. Where the source's queue is full its oldest frame is
    /// dropped.
    pub fn push(&mut self, source_id: u64, frame: AudioFrame)
        requires
            old(self).wf(),
        ensures
            final(self).wf(),
            final(self).named(source_id),
            final(self).queue_of(source_id) == queue_pushed(
                old(self).queue_of(source_id),
                old(self).limit_of(source_id),
                frame@,
            ),
            final(self).limit_of(source_id) == old(self).limit_of(source_id),
            final(self).gain() == old(self).gain(),
            final(self).is_muted() == old(self).is_muted(),
            forall|id: u64|
                id != source_id ==> #[trigger] final(self).queue_of(id) == old(self).queue_of(id),
            forall|id: u64|
                id != source_id ==> #[trigger] final(self).limit_of(id) == old(self).limit_of(id),
    {
        let limit = self.source_frame_limit(source_id);
        let ghost before = *self;
        match self.find(source_id) {
            Some(index) => {
                let ghost queue = self.queues()[index as int];
                let mut source = self.sources.remove(index);
                let ghost held = source.frames@;
                if source.frames.len() >= limit {
                    source.frames.pop_front();
                    assert(source.frames@ =~= held.skip(1));
                }
                let ghost left = source.frames@;
                source.frames.push_back(frame);
                let ghost kept = source;
                self.sources.insert(index, source);
                proof {
                    assert(self.sources@ =~= before.sources@.update(index as int, kept));
                    assert(queue == crate::line_sink::audio_models(held));
                    assert(crate::line_sink::audio_models(kept.frames@) =~= queue_pushed(
                        queue,
                        limit,
                        frame@,
                    ));
                    assert(before.limits()[index as int] == limit);
                    lemma_source_changed(&before, &*self, index as int, kept);
                }
            },
            None => {
                let mut frames: VecDeque<AudioFrame> = VecDeque::new();
                frames.push_back(frame);
                let added = MixerSource { id: source_id, frames, limit: None };
                let ghost kept = added;
                self.sources.push(added);
                proof {
                    assert(crate::line_sink::audio_models(kept.frames@) =~= queue_pushed(
                        Seq::empty(),
                        limit,
                        frame@,
                    ));
                    lemma_source_added(&before, &*self, kept);
                }
            },
        }
    }

    /// Takes the oldest frame of every source that has one and mixes them. Frames of
    /// different shapes cannot be mixed: then the sources up to the first that does not fit
    /// have given their frame.
    pub fn mix_next(&mut self) -> (mixed: Result<Option<MixedFrame>, AudioError>)
        requires
            old(self).wf(),
        ensures
            final(self).wf(),
            final(self).order() == old(self).order(),
            final(self).limits() == old(self).limits(),
            final(self).gain() == old(self).gain(),
            final(self).is_muted() == old(self).is_muted(),
            match mixed {
                Ok(None) => {
                    &&& heads(old(self).queues()).len() == 0
                    &&& final(self).queues() == old(self).queues()
                },
                Ok(Some(mixed)) => {
                    &&& heads(old(self).queues()).len() > 0
                    &&& uniform(heads(old(self).queues()))
                    &&& final(self).queues() == popped(
                        old(self).queues(),
                        old(self).queues().len() as int,
                    )
                    &&& mix_of(
                        heads(old(self).queues()),
                        old(self).is_muted(),
                        old(self).gain(),
                        mixed,
                    )
                },
                Err(error) => {
                    &&& error == AudioError::IncompatibleFrames
                    &&& !uniform(heads(old(self).queues()))
                    &&& exists|count: int| #[trigger]
                        stops_at(old(self).queues(), count) && final(self).queues() == popped(
                            old(self).queues(),
                            count,
                        )
                },
            },
    {
        let ghost before = *self;
        let ghost queues = self.queues();
        let mut frames: Vec<AudioFrame> = Vec::new();
        let mut i: usize = 0;
        proof {
            assert(crate::line_sink::audio_models(frames@) =~= heads(queues.take(0)));
            assert(self.queues() =~= popped(queues, 0));
        }
        while i < self.sources.len()
            invariant
                i <= self.sources@.len(),
                before.wf(),
                before == *old(self),
                queues == before.queues(),
                self.sources@.len() == before.sources@.len(),
                self.gain_db == before.gain_db,
                self.muted == before.muted,
                self.order() == before.order(),
                self.limits() == before.limits(),
                self.queues() == popped(queues, i as int),
                crate::line_sink::audio_models(frames@) == heads(queues.take(i as int)),
                uniform(heads(queues.take(i as int))),
            decreases self.sources.len() - i,
        {
            let ghost stage = *self;
            let ghost collected = frames@;
            let mut source = self.sources.remove(i);
            let ghost held = source.frames@;
            let popped_frame = source.frames.pop_front();
            let ghost kept = source;
            self.sources.insert(i, source);
            proof {
                assert(self.sources@ =~= stage.sources@.update(i as int, kept));
                assert(self.order() =~= before.order());
                assert(self.limits() =~= before.limits());
                assert(crate::line_sink::audio_models(held) == stage.queues()[i as int]);
                assert(stage.queues()[i as int] == queues[i as int]);
                assert(queues.take(i + 1).drop_last() =~= queues.take(i as int));
                assert(queues.take(i + 1).last() == queues[i as int]);
                if held.len() > 0 {
                    assert(crate::line_sink::audio_models(kept.frames@)
                        =~= crate::line_sink::audio_models(held).skip(1));
                } else {
                    assert(crate::line_sink::audio_models(kept.frames@)
                        =~= crate::line_sink::audio_models(held));
                }
                assert forall|j: int| 0 <= j < queues.len() implies self.queues()[j] == popped(
                    queues,
                    i + 1,
                )[j] by {
                    assert(stage.queues()[j] == popped(queues, i as int)[j]);
                    if j != i {
                        assert(self.sources@[j] == stage.sources@[j]);
                        assert(self.queues()[j] == stage.queues()[j]);
                    }
                }
                assert(self.queues() =~= popped(queues, i + 1));
            }
            match popped_frame {
                Some(frame) => {
                    let ghost now = heads(queues.take(i + 1));
                    let ghost earlier = heads(queues.take(i as int));
                    assert(frame@ == queues[i as int][0]);
                    assert(now == earlier.push(frame@));
                    if frames.len() > 0 && !frames[0].same_shape(&frame) {
                        proof {
                            assert(now[0] == earlier[0]);
                            assert(earlier[0] == frames@[0]@);
                            assert(!now[0].matches_shape(now[now.len() - 1]));
                            lemma_not_uniform_stays(queues, i + 1);
                            lemma_popped_keeps_limits(&before, &*self, i + 1);
                            assert(stops_at(queues, i + 1));
                        }
                        return Err(AudioError::IncompatibleFrames);
                    }
                    proof {
                        assert forall|j: int| 0 <= j < now.len() implies now[0].matches_shape(
                            #[trigger] now[j],
                        ) by {
                            if earlier.len() > 0 {
                                assert(now[0] == earlier[0]);
                                assert(frames@[0]@ == earlier[0]);
                                if j < earlier.len() {
                                    assert(earlier[0].matches_shape(earlier[j]));
                                }
                            }
                        }
                    }
                    frames.push(frame);
                    assert(crate::line_sink::audio_models(frames@)
                        =~= crate::line_sink::audio_models(collected).push(frame@));
                },
                None => {},
            }
            i += 1;
        }
        proof {
            assert(queues.take(i as int) =~= queues);
            lemma_popped_keeps_limits(&before, &*self, i as int);
        }
        if frames.len() == 0 {
            proof {
                lemma_no_heads_nothing_popped(queues);
            }
            return Ok(None);
        }
        let ghost all = heads(queues);
        if self.muted {
            let first = frames.remove(0);
            assert(first@ == all[0]);
            return Ok(Some(MixedFrame::Ready(first.silenced())));
        }
        if frames.len() == 1 && self.gain_db.same_gain(GainDb::zero()) {
            let first = frames.remove(0);
            assert(first@ == all[0]);
            return Ok(Some(MixedFrame::Ready(first.clipped())));
        }
        Ok(Some(MixedFrame::Sum { frames, gain_db: self.gain_db }))
    }

    fn source_frame_limit(&self, source_id: u64) -> (limit: usize)
        requires
            self.wf(),
        ensures
            limit == self.limit_of(source_id),
            limit >= 1,
    {
        match self.find(source_id) {
            Some(index) => {
                assert(self.limits()[index as int] >= 1);
                match self.sources[index].limit {
                    Some(limit) => limit,
                    None => DEFAULT_SOURCE_FRAMES,
                }
            },
            None => DEFAULT_SOURCE_FRAMES,
        }
    }
}

impl Default for Mixer {
    fn default() -> (mixer: Self)
        ensures
            mixer.wf(),
            mixer.order() == Seq::<u64>::empty(),
            mixer.gain().bits == 0,
            !mixer.is_muted(),
    {
        Mixer::new()
    }
}

/// Whether mixing stops after `count` sources because the last of them does not fit.
pub open spec fn stops_at(queues: Seq<Seq<AudioModel>>, count: int) -> bool {
    &&& 0 < count <= queues.len()
    &&& uniform(heads(queues.take(count - 1)))
    &&& !uniform(heads(queues.take(count)))
}

/// Once the frames of a prefix do not fit together, more of them do not either.
proof fn lemma_not_uniform_stays(queues: Seq<Seq<AudioModel>>, count: int)
    requires
        0 <= count <= queues.len(),
        !uniform(heads(queues.take(count))),
    ensures
        !uniform(heads(queues)),
    decreases queues.len() - count,
{
    if count < queues.len() {
        let some = heads(queues.take(count));
        let more = heads(queues.take(count + 1));
        assert(queues.take(count + 1).drop_last() =~= queues.take(count));
        let bad = choose|j: int| 0 <= j < some.len() && !some[0].matches_shape(#[trigger] some[j]);
        assert(more[bad] == some[bad]);
        assert(more[0] == some[0]);
        assert(!more[0].matches_shape(more[bad]));
        lemma_not_uniform_stays(queues, count + 1);
    } else {
        assert(queues.take(count) =~= queues);
    }
}

/// Without a head no queue changes.
proof fn lemma_no_heads_nothing_popped(queues: Seq<Seq<AudioModel>>)
    requires
        heads(queues).len() == 0,
    ensures
        popped(queues, queues.len() as int) == queues,
    decreases queues.len(),
{
    if queues.len() > 0 {
        let rest = queues.drop_last();
        lemma_no_heads_nothing_popped(rest);
        assert forall|i: int| 0 <= i < queues.len() implies popped(queues, queues.len() as int)[i]
            == queues[i] by {
            if i < rest.len() {
                assert(popped(rest, rest.len() as int)[i] == rest[i]);
                if queues[i].len() > 0 {
                    assert(rest[i].skip(1).len() == rest[i].len() - 1);
                }
            }
        }
    }
    assert(popped(queues, queues.len() as int) =~= queues);
}

/// Taking frames out leaves no queue over its limit.
proof fn lemma_popped_keeps_limits(before: &Mixer, after: &Mixer, count: int)
    requires
        before.wf(),
        after.sources@.len() == before.sources@.len(),
        after.order() == before.order(),
        after.limits() == before.limits(),
        after.queues() == popped(before.queues(), count),
    ensures
        after.wf(),
{
    assert forall|i: int| 0 <= i < after.sources@.len() implies (#[trigger] after.queues()[i]).len()
        <= after.limits()[i] by {
        assert(before.queues()[i].len() <= before.limits()[i]);
    }
    assert forall|i: int| 0 <= i < after.sources@.len() implies (#[trigger] after.limits()[i])
        >= 1 by {
        assert(before.limits()[i] >= 1);
    }
}

/// Changing the source at `index` changes it alone.
proof fn lemma_source_changed(before: &Mixer, after: &Mixer, index: int, kept: MixerSource)
    requires
        before.wf(),
        0 <= index < before.sources@.len(),
        after.sources@ == before.sources@.update(index, kept),
        kept.id == before.sources@[index].id,
        (match kept.limit {
            Some(limit) => limit,
            None => DEFAULT_SOURCE_FRAMES,
        }) >= 1,
        kept.frames@.len() <= (match kept.limit {
            Some(limit) => limit,
            None => DEFAULT_SOURCE_FRAMES,
        }),
    ensures
        after.wf(),
        after.named(kept.id),
        after.queue_of(kept.id) == crate::line_sink::audio_models(kept.frames@),
        after.limit_of(kept.id) == (match kept.limit {
            Some(limit) => limit,
            None => DEFAULT_SOURCE_FRAMES,
        }),
        forall|id: u64|
            id != kept.id ==> #[trigger] after.queue_of(id) == before.queue_of(id),
        forall|id: u64|
            id != kept.id ==> #[trigger] after.limit_of(id) == before.limit_of(id),
{
    assert(after.order() =~= before.order());
    assert forall|i: int| 0 <= i < after.sources@.len() implies (#[trigger] after.limits()[i])
        >= 1 by {
        if i != index {
            assert(after.limits()[i] == before.limits()[i]);
        }
    }
    assert forall|i: int| 0 <= i < after.sources@.len() implies (#[trigger] after.queues()[i]).len()
        <= after.limits()[i] by {
        if i != index {
            assert(after.queues()[i] == before.queues()[i]);
            assert(after.limits()[i] == before.limits()[i]);
        }
    }
    after.lemma_place(index);
    assert forall|id: u64| id != kept.id implies #[trigger] after.queue_of(id) == before.queue_of(
        id,
    ) && after.limit_of(id) == before.limit_of(id) by {
        if before.named(id) {
            let place = before.place(id);
            assert(0 <= place < before.order().len() && before.order()[place] == id);
            assert(before.order()[index] == kept.id);
            assert(place != index);
            assert(after.sources@[place].id == id);
            after.lemma_place(place);
            before.lemma_place(place);
            assert(after.queues()[place] == before.queues()[place]);
            assert(after.limits()[place] == before.limits()[place]);
        }
    }
}

/// Adding a source adds it alone.
proof fn lemma_source_added(before: &Mixer, after: &Mixer, kept: MixerSource)
    requires
        before.wf(),
        !before.named(kept.id),
        after.sources@ == before.sources@.push(kept),
        (match kept.limit {
            Some(limit) => limit,
            None => DEFAULT_SOURCE_FRAMES,
        }) >= 1,
        kept.frames@.len() <= (match kept.limit {
            Some(limit) => limit,
            None => DEFAULT_SOURCE_FRAMES,
        }),
    ensures
        after.wf(),
        after.named(kept.id),
        after.queue_of(kept.id) == crate::line_sink::audio_models(kept.frames@),
        after.limit_of(kept.id) == (match kept.limit {
            Some(limit) => limit,
            None => DEFAULT_SOURCE_FRAMES,
        }),
        forall|id: u64|
            id != kept.id ==> #[trigger] after.queue_of(id) == before.queue_of(id),
        forall|id: u64|
            id != kept.id ==> #[trigger] after.limit_of(id) == before.limit_of(id),
{
    let last = before.sources@.len() as int;
    assert(after.order() =~= before.order().push(kept.id));
    assert forall|i: int| 0 <= i < after.sources@.len() implies (#[trigger] after.limits()[i])
        >= 1 by {
        if i != last {
            assert(after.limits()[i] == before.limits()[i]);
        }
    }
    assert forall|i: int| 0 <= i < after.sources@.len() implies (#[trigger] after.queues()[i]).len()
        <= after.limits()[i] by {
        if i != last {
            assert(after.queues()[i] == before.queues()[i]);
            assert(after.limits()[i] == before.limits()[i]);
        }
    }
    assert forall|i: int, j: int|
        0 <= i < j < after.order().len() implies #[trigger] after.order()[i]
        != #[trigger] after.order()[j] by {
        if j == last {
            assert(before.order()[i] == after.order()[i]);
            if after.order()[i] == kept.id {
                assert(before.order().contains(kept.id));
            }
        } else {
            assert(before.order()[i] == after.order()[i]);
            assert(before.order()[j] == after.order()[j]);
        }
    }
    after.lemma_place(last);
    assert forall|id: u64| id != kept.id implies #[trigger] after.queue_of(id) == before.queue_of(
        id,
    ) && after.limit_of(id) == before.limit_of(id) by {
        if before.named(id) {
            let place = before.place(id);
            assert(0 <= place < before.order().len() && before.order()[place] == id);
            assert(after.sources@[place].id == id);
            after.lemma_place(place);
            before.lemma_place(place);
            assert(after.queues()[place] == before.queues()[place]);
            assert(after.limits()[place] == before.limits()[place]);
        } else if after.named(id) {
            let place = after.place(id);
            assert(0 <= place < after.order().len() && after.order()[place] == id);
            assert(place < last);
            assert(before.order()[place] == id);
            assert(before.order().contains(id));
        }
    }
    assert forall|id: u64| id != kept.id implies #[trigger] after.limit_of(id) == before.limit_of(
        id,
    ) by {
        assert(after.queue_of(id) == before.queue_of(id));
    }
}

/// Where mixed sound goes.
pub trait MixerSink: Sized {
    /// Whether the sink takes a frame now.
    open spec fn ready(&self) -> bool {
        arbitrary()
    }

    /// Whether handing over `frame` can give `outcome` and leave the sink as `after`.
    open spec fn takes(
        self,
        frame: AudioModel,
        outcome: Result<(), AudioError>,
        after: Self,
    ) -> bool {
        true
    }

    /// Whether the sink takes a frame now.
    fn can_receive(&self) -> (ready: bool)
        ensures
            ready == self.ready(),
    ;

    /// Takes a frame.
    fn handle_frame(&mut self, frame: AudioFrame) -> (handled: Result<(), AudioError>)
        ensures
            old(self).takes(frame@, handled, *final(self)),
    ;
}

/// What a step of a running mixer came to.
#[derive(Debug, PartialEq)]
pub enum MixerStep {
    /// The sink takes nothing now, or there is nothing to mix.
    Idle,
    /// A frame was handed to the sink.
    Delivered,
    /// Frames are to be added, given the gain and limited, and the sum is then to be handed
    /// to the sink.
    Blend { frames: Vec<AudioFrame>, gain_db: GainDb },
}

/// One step of a running mixer: nothing is mixed before the sink takes a frame.
pub fn mixer_step<S: MixerSink>(mixer: &mut Mixer, sink: &mut S) -> (step: Result<
    MixerStep,
    AudioError,
>)
    requires
        old(mixer).wf(),
    ensures
        final(mixer).wf(),
        final(mixer).order() == old(mixer).order(),
        final(mixer).limits() == old(mixer).limits(),
        final(mixer).gain() == old(mixer).gain(),
        final(mixer).is_muted() == old(mixer).is_muted(),
        !old(sink).ready() ==> {
            &&& step == Ok::<MixerStep, AudioError>(MixerStep::Idle)
            &&& *final(mixer) == *old(mixer)
            &&& *final(sink) == *old(sink)
        },
        old(sink).ready() && heads(old(mixer).queues()).len() == 0 ==> {
            &&& step == Ok::<MixerStep, AudioError>(MixerStep::Idle)
            &&& final(mixer).queues() == old(mixer).queues()
            &&& *final(sink) == *old(sink)
        },
        old(sink).ready() && !uniform(heads(old(mixer).queues())) ==> {
            &&& step == Err::<MixerStep, AudioError>(AudioError::IncompatibleFrames)
            &&& *final(sink) == *old(sink)
            &&& exists|count: int| #[trigger]
                stops_at(old(mixer).queues(), count) && final(mixer).queues() == popped(
                    old(mixer).queues(),
                    count,
                )
        },
        old(sink).ready() && heads(old(mixer).queues()).len() > 0 && uniform(
            heads(old(mixer).queues()),
        ) ==> {
            &&& final(mixer).queues() == popped(
                old(mixer).queues(),
                old(mixer).queues().len() as int,
            )
            &&& match step {
                Ok(MixerStep::Idle) => false,
                Ok(MixerStep::Blend { frames, gain_db }) => {
                    &&& *final(sink) == *old(sink)
                    &&& mix_of(
                        heads(old(mixer).queues()),
                        old(mixer).is_muted(),
                        old(mixer).gain(),
                        MixedFrame::Sum { frames, gain_db },
                    )
                },
                _ => exists|frame: AudioFrame, handled: Result<(), AudioError>|
                    {
                        &&& mix_of(
                            heads(old(mixer).queues()),
                            old(mixer).is_muted(),
                            old(mixer).gain(),
                            MixedFrame::Ready(frame),
                        )
                        &&& #[trigger] old(sink).takes(frame@, handled, *final(sink))
                        &&& match handled {
                            Ok(_) => step == Ok::<MixerStep, AudioError>(MixerStep::Delivered),
                            Err(error) => step == Err::<MixerStep, AudioError>(error),
                        }
                    },
            }
        },
{
    if !sink.can_receive() {
        return Ok(MixerStep::Idle);
    }
    match mixer.mix_next() {
        Ok(Some(MixedFrame::Ready(frame))) => {
            let ghost mixed = frame;
            let handled = sink.handle_frame(frame);
            assert(old(sink).takes(mixed@, handled, *sink));
            match handled {
                Ok(()) => Ok(MixerStep::Delivered),
                Err(error) => Err(error),
            }
        },
        Ok(Some(MixedFrame::Sum { frames, gain_db })) => Ok(MixerStep::Blend { frames, gain_db }),
        Ok(None) => Ok(MixerStep::Idle),
        Err(error) => Err(error),
    }
}

/// No source has more frames waiting than it may, and every source may have at least one.
pub proof fn law_sources_keep_to_their_limits(mixer: &Mixer, source_id: u64)
    requires
        mixer.wf(),
    ensures
        mixer.queue_of(source_id).len() <= mixer.limit_of(source_id),
        mixer.limit_of(source_id) >= 1,
{
    if mixer.named(source_id) {
        let index = mixer.place(source_id);
        assert(0 <= index < mixer.sources@.len());
        assert(mixer.queues()[index].len() <= mixer.limits()[index]);
        assert(mixer.limits()[index] >= 1);
    }
}

/// A frame pushed for a source is the last of its queue, and the queue keeps to its limit.
pub proof fn law_newest_frame_is_kept(
    queue: Seq<AudioModel>,
    limit: usize,
    frame: AudioModel,
)
    requires
        limit >= 1,
        queue.len() <= limit,
    ensures
        queue_pushed(queue, limit, frame).len() <= limit,
        queue_pushed(queue, limit, frame).last() == frame,
{
}

/// A full queue loses its oldest frame for the new one, and no other; what stays keeps its
/// order. A queue with room loses nothing.
pub proof fn law_only_a_full_queue_loses_its_oldest_frame(
    queue: Seq<AudioModel>,
    limit: usize,
    frame: AudioModel,
)
    requires
        limit >= 1,
        queue.len() <= limit,
    ensures
        ({
            let after = queue_pushed(queue, limit, frame);
            let lost: int = if queue.len() == limit {
                1
            } else {
                0
            };
            &&& after.len() == queue.len() - lost + 1
            &&& after.last() == frame
            &&& forall|i: int| lost <= i < queue.len() ==> after[i - lost] == #[trigger] queue[i]
        }),
{
}

/// A queue that is given a lower limit keeps its newest frames, as many as it may have, in
/// their order; within the limit it keeps all.
pub proof fn law_trimming_keeps_the_newest_frames(queue: Seq<AudioModel>, limit: usize)
    ensures
        ({
            let after = queue_trimmed(queue, limit);
            let lost: int = if queue.len() > limit {
                queue.len() - limit
            } else {
                0
            };
            &&& after.len() == queue.len() - lost
            &&& after.len() <= limit || limit >= queue.len()
            &&& forall|i: int| lost <= i < queue.len() ==> after[i - lost] == #[trigger] queue[i]
        }),
{
}

/// A source of which nothing was said has no frames, and may have eight.
pub proof fn law_unknown_source_is_empty(mixer: &Mixer, source_id: u64)
    requires
        !mixer.order().contains(source_id),
    ensures
        mixer.queue_of(source_id).len() == 0,
        mixer.limit_of(source_id) == 8,
{
}

/// The oldest frames are those of the queues one after another: an empty queue gives none, any
/// other its first.
pub proof fn law_every_waiting_source_is_heard(
    first: Seq<Seq<AudioModel>>,
    second: Seq<Seq<AudioModel>>,
    queue: Seq<AudioModel>,
)
    ensures
        heads(first + second) == heads(first) + heads(second),
        heads(seq![queue]) == (if queue.len() == 0 {
            Seq::<AudioModel>::empty()
        } else {
            seq![queue[0]]
        }),
    decreases second.len(),
{
    let single = seq![queue];
    assert(single.drop_last() =~= Seq::<Seq<AudioModel>>::empty());
    assert(heads(single.drop_last()) =~= Seq::<AudioModel>::empty());
    assert(heads(single) =~= if queue.len() == 0 {
        Seq::<AudioModel>::empty()
    } else {
        seq![queue[0]]
    });
    if second.len() == 0 {
        assert(first + second =~= first);
        assert(heads(first) + heads(second) =~= heads(first));
    } else {
        let rest = second.drop_last();
        law_every_waiting_source_is_heard(first, rest, queue);
        assert((first + second).drop_last() =~= first + rest);
        assert((first + second).last() == second.last());
        assert(heads(first + second) =~= heads(first) + heads(second));
    }
}

/// The oldest frame of every source that has one is among those that are mixed, and there are
/// no others.
pub proof fn law_mixed_frames_are_the_oldest(queues: Seq<Seq<AudioModel>>, frame: AudioModel)
    ensures
        heads(queues).contains(frame) <==> exists|i: int|
            0 <= i < queues.len() && (#[trigger] queues[i]).len() > 0 && queues[i][0] == frame,
        heads(queues).len() <= queues.len(),
    decreases queues.len(),
{
    if queues.len() > 0 {
        let rest = queues.drop_last();
        law_mixed_frames_are_the_oldest(rest, frame);
        let last = queues.last();
        let before = heads(rest);
        let after = heads(queues);
        if before.contains(frame) {
            let j = choose|j: int| 0 <= j < before.len() && before[j] == frame;
            assert(after[j] == frame);
            let i = choose|i: int|
                0 <= i < rest.len() && (#[trigger] rest[i]).len() > 0 && rest[i][0] == frame;
            assert(queues[i].len() > 0 && queues[i][0] == frame);
        }
        if last.len() > 0 && last[0] == frame {
            assert(after[after.len() - 1] == frame);
            assert(queues[queues.len() - 1].len() > 0);
        }
        if after.contains(frame) && !before.contains(frame) {
            let j = choose|j: int| 0 <= j < after.len() && after[j] == frame;
            if j < before.len() {
                assert(before[j] == frame);
            }
        }
        if exists|i: int|
            0 <= i < queues.len() && (#[trigger] queues[i]).len() > 0 && queues[i][0] == frame {
            let i = choose|i: int|
                0 <= i < queues.len() && (#[trigger] queues[i]).len() > 0 && queues[i][0] == frame;
            if i < rest.len() {
                assert(rest[i].len() > 0 && rest[i][0] == frame);
            }
        }
    }
}

/// Mixing takes exactly the oldest frame out of every queue that has one.
pub proof fn law_mixing_takes_one_frame_each(queues: Seq<Seq<AudioModel>>, index: int)
    requires
        0 <= index < queues.len(),
    ensures
        ({
            let after = popped(queues, queues.len() as int);
            &&& after.len() == queues.len()
            &&& queues[index].len() == 0 ==> after[index].len() == 0
            &&& queues[index].len() > 0 ==> queues[index] == seq![queues[index][0]] + after[index]
        }),
{
    let after = popped(queues, queues.len() as int);
    if queues[index].len() > 0 {
        assert(queues[index] =~= seq![queues[index][0]] + after[index]);
    }
}

/// Where mixing stops, the queues behind lose nothing.
pub proof fn law_stopped_mixing_leaves_the_rest(
    queues: Seq<Seq<AudioModel>>,
    count: int,
    index: int,
)
    requires
        0 <= index < queues.len(),
    ensures
        popped(queues, count).len() == queues.len(),
        index >= count ==> popped(queues, count)[index] == queues[index],
        index < count && queues[index].len() > 0 ==> queues[index] == seq![queues[index][0]]
            + popped(queues, count)[index],
{
    if index < count && queues[index].len() > 0 {
        assert(queues[index] =~= seq![queues[index][0]] + popped(queues, count)[index]);
    }
}

/// Frames fit together exactly if any two have one sample rate, one number of channels and one
/// number of samples.
pub proof fn law_frames_fit_by_format_and_length(frames: Seq<AudioModel>)
    ensures
        uniform(frames) <==> forall|i: int, j: int|
            0 <= i < frames.len() && 0 <= j < frames.len() ==> (#[trigger] frames[i]).samplerate
                == (#[trigger] frames[j]).samplerate && frames[i].channels == frames[j].channels
                && frames[i].samples.len() == frames[j].samples.len(),
{
    if uniform(frames) {
        assert forall|i: int, j: int|
            0 <= i < frames.len() && 0 <= j < frames.len() implies (
        #[trigger] frames[i]).samplerate == (#[trigger] frames[j]).samplerate
            && frames[i].channels == frames[j].channels && frames[i].samples.len()
            == frames[j].samples.len() by {
            assert(frames[0].matches_shape(frames[i]));
            assert(frames[0].matches_shape(frames[j]));
        }
    }
}

/// What is mixed has the mixer's gain, however many frames it is made of, and all the frames.
/// Only one frame alone at a gain of zero is ready: it is limited to the range from minus one
/// to one.
pub proof fn law_mixed_sound_has_the_gain(
    frames: Seq<AudioModel>,
    gain_db: GainDb,
    mixed: MixedFrame,
)
    requires
        frames.len() > 0,
        mix_of(frames, false, gain_db, mixed),
    ensures
        match mixed {
            MixedFrame::Sum { frames: parts, gain_db: gain } => {
                &&& gain_db == gain
                &&& parts@.len() == frames.len()
                &&& forall|i: int| 0 <= i < frames.len() ==> (#[trigger] parts@[i])@ == frames[i]
                &&& frames.len() > 1 || !(gain_db.bits == 0 || gain_db.bits == 0x8000_0000)
            },
            MixedFrame::Ready(frame) => {
                &&& frames.len() == 1
                &&& gain_db.bits == 0 || gain_db.bits == 0x8000_0000
                &&& frame@.samplerate == frames[0].samplerate
                &&& frame@.channels == frames[0].channels
                &&& frame@.samples.len() == frames[0].samples.len()
                &&& forall|i: int|
                    0 <= i < frames[0].samples.len() ==> crate::audio::is_within_one(
                        frames[0].samples[i],
                        #[trigger] frame@.samples[i],
                    )
            },
        },
{
    if let MixedFrame::Sum { frames: parts, gain_db: gain } = mixed {
        assert forall|i: int| 0 <= i < frames.len() implies (#[trigger] parts@[i])@
            == frames[i] by {
            assert(crate::line_sink::audio_models(parts@)[i] == frames[i]);
        }
    }
}

/// A muted mixer gives silence of the format and length of the frames, whatever they hold and
/// whatever the gain is.
pub proof fn law_muted_sound_is_silence(
    frames: Seq<AudioModel>,
    gain_db: GainDb,
    mixed: MixedFrame,
)
    requires
        frames.len() > 0,
        mix_of(frames, true, gain_db, mixed),
    ensures
        mixed matches MixedFrame::Ready(frame) && {
            &&& frame@.samplerate == frames[0].samplerate
            &&& frame@.channels == frames[0].channels
            &&& frame@.samples.len() == frames[0].samples.len()
            &&& forall|i: int| 0 <= i < frame@.samples.len() ==> #[trigger] frame@.samples[i] == 0
        },
{
}

/// Mixing stops at the first source whose frame does not fit those of the sources before it.
pub proof fn law_mixing_stops_at_the_first_misfit(
    queues: Seq<Seq<AudioModel>>,
    count: int,
    other: int,
)
    requires
        stops_at(queues, count),
        stops_at(queues, other),
    ensures
        count == other,
        0 < count <= queues.len(),
        queues[count - 1].len() > 0,
        uniform(heads(queues.take(count - 1))),
        !uniform(heads(queues.take(count - 1)).push(queues[count - 1][0])),
{
    lemma_stop_is_a_misfit(queues, count);
    if count < other {
        assert(queues.take(other - 1).take(count) =~= queues.take(count));
        lemma_not_uniform_stays(queues.take(other - 1), count);
    }
    if other < count {
        assert(queues.take(count - 1).take(other) =~= queues.take(other));
        lemma_not_uniform_stays(queues.take(count - 1), other);
    }
}

proof fn lemma_stop_is_a_misfit(queues: Seq<Seq<AudioModel>>, count: int)
    requires
        stops_at(queues, count),
    ensures
        queues[count - 1].len() > 0,
        !uniform(heads(queues.take(count - 1)).push(queues[count - 1][0])),
{
    let taken = queues.take(count);
    assert(taken.drop_last() =~= queues.take(count - 1));
    assert(taken.last() == queues[count - 1]);
}

} // verus!
