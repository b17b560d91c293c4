//! `UIEvent`.
use vstd::prelude::*;

verus! {

/// An object of the guest. Zero is nil.
pub type ObjectId = u32;

pub const UI_EVENT_TYPE_TOUCHES: u32 = 0;

pub const UI_EVENT_SUBTYPE_NONE: i32 = 0;

/// What an event needs to know of a `UITouch`.
#[derive(Clone, Copy, Debug, PartialEq, Eq, Structural)]
pub struct Touch {
    pub id: ObjectId,
    pub view: ObjectId,
    pub window: ObjectId,
    /// Whether the touch has ended or was cancelled.
    pub ended: bool,
}

/// An event.
pub struct UIEventHostObject {
    /// The touches, or nothing where there is no set of them.
    pub touches: Option<Vec<Touch>>,
    /// Seconds since the system started, as the bit pattern of a float.
    pub timestamp: u64,
    /// `touchesEnded:` / `touchesCancelled:` events must expose their ended
    /// touch while dispatch is happening. Older retained Began/Moved events
    /// should not keep showing the same touch forever after it has ended.
    pub include_ended_touches: bool,
}

/// Whether an event shows a touch.
pub open spec fn is_visible(touch: Touch, include_ended_touches: bool) -> bool {
    touch.id != 0 && (include_ended_touches || !touch.ended)
}

/// Those of the first `count` touches that are visible.
pub open spec fn visible_touches(
    touches: Seq<Touch>,
    include_ended_touches: bool,
    count: int,
) -> Seq<u32>
    decreases count,
{
    if count <= 0 {
        Seq::empty()
    } else {
        let rest = visible_touches(touches, include_ended_touches, count - 1);
        if is_visible(touches[count - 1], include_ended_touches) {
            rest.push(touches[count - 1].id)
        } else {
            rest
        }
    }
}

/// Those of the first `count` touches that are visible and in a window.
pub open spec fn window_touches(
    touches: Seq<Touch>,
    include_ended_touches: bool,
    window: u32,
    count: int,
) -> Seq<u32>
    decreases count,
{
    if count <= 0 {
        Seq::empty()
    } else {
        let rest = window_touches(touches, include_ended_touches, window, count - 1);
        let touch = touches[count - 1];
        if is_visible(touch, include_ended_touches) && touch.window == window {
            rest.push(touch.id)
        } else {
            rest
        }
    }
}

/// Those of the first `count` touches that are visible and in a view.
pub open spec fn view_touches(
    touches: Seq<Touch>,
    include_ended_touches: bool,
    view: u32,
    count: int,
) -> Seq<u32>
    decreases count,
{
    if count <= 0 {
        Seq::empty()
    } else {
        let rest = view_touches(touches, include_ended_touches, view, count - 1);
        let touch = touches[count - 1];
        if is_visible(touch, include_ended_touches) && touch.view == view {
            rest.push(touch.id)
        } else {
            rest
        }
    }
}

/// Whether an event shows a touch.
pub fn touch_visible_for_event(touch: &Touch, include_ended_touches: bool) -> (visible: bool)
    ensures
        visible == is_visible(*touch, include_ended_touches),
{
    if touch.id == 0 {
        return false;
    }
    include_ended_touches || !touch.ended
}

/// The touches that an event shows. `None` if there is no set of touches.
pub fn filtered_touches_for_event(
    touches: &Option<Vec<Touch>>,
    include_ended_touches: bool,
) -> (filtered: Option<Vec<ObjectId>>)
    ensures
        match (touches, filtered) {
            (Some(touches), Some(filtered)) => filtered@ == visible_touches(
                touches@,
                include_ended_touches,
                touches@.len() as int,
            ),
            (None, None) => true,
            _ => false,
        },
{
    match touches {
        None => None,
        Some(touches) => {
            let mut filtered: Vec<u32> = Vec::new();
            let mut i: usize = 0;
            while i < touches.len()
                invariant
                    i <= touches@.len(),
                    filtered@ == visible_touches(touches@, include_ended_touches, i as int),
                decreases touches@.len() - i,
            {
                if touch_visible_for_event(&touches[i], include_ended_touches) {
                    filtered.push(touches[i].id);
                }
                i = i + 1;
            }
            Some(filtered)
        },
    }
}

impl UIEventHostObject {
    /// The touches, as a mathematical value.
    pub open spec fn all(self) -> Seq<Touch> {
        match self.touches {
            Some(touches) => touches@,
            None => Seq::empty(),
        }
    }

    /// The touches in a view. Where the view isn't enabled for multiple
    /// touches, there is one at most.
    pub fn touches_for_view(
        &self,
        view: ObjectId,
        multiple_touch_enabled: bool,
    ) -> (found: Vec<ObjectId>)
        ensures
            ({
                let all = view_touches(
                    self.all(),
                    self.include_ended_touches,
                    view,
                    self.all().len() as int,
                );
                found@ == if multiple_touch_enabled || all.len() == 0 {
                    all
                } else {
                    all.take(1)
                }
            }),
    {
        let mut found: Vec<u32> = Vec::new();
        let ghost ended_too = self.include_ended_touches;
        if let Some(touches) = &self.touches {
            let mut i: usize = 0;
            while i < touches.len()
                invariant
                    i <= touches@.len(),
                    ended_too == self.include_ended_touches,
                    self.all() == touches@,
                    found@ == view_touches(touches@, ended_too, view, i as int),
                    !multiple_touch_enabled ==> found@.len() == 0,
                decreases touches@.len() - i,
            {
                let touch = touches[i];
                if touch_visible_for_event(&touch, self.include_ended_touches) && touch.view
                    == view {
                    found.push(touch.id);
                    if !multiple_touch_enabled {
                        proof {
                            lemma_first_view_touch(
                                touches@,
                                ended_too,
                                view,
                                i + 1,
                                touches@.len() as int,
                            );
                            let all = view_touches(
                                touches@,
                                ended_too,
                                view,
                                touches@.len() as int,
                            );
                            assert(found@ == view_touches(touches@, ended_too, view, i + 1));
                            assert(found@ =~= all.take(1));
                        }
                        return found;
                    }
                }
                i = i + 1;
            }
        }
        found
    }

    /// The touches that the event shows.
    pub fn all_touches(&self) -> (touches: Option<Vec<ObjectId>>)
        ensures
            match touches {
                Some(touches) => self.touches is Some && touches@ == visible_touches(
                    self.all(),
                    self.include_ended_touches,
                    self.all().len() as int,
                ),
                None => self.touches is None,
            },
    {
        filtered_touches_for_event(&self.touches, self.include_ended_touches)
    }

    /// The touches in a window.
    pub fn touches_for_window(&self, window: ObjectId) -> (found: Vec<ObjectId>)
        ensures
            found@ == window_touches(
                self.all(),
                self.include_ended_touches,
                window,
                self.all().len() as int,
            ),
    {
        let mut found: Vec<u32> = Vec::new();
        if let Some(touches) = &self.touches {
            let mut i: usize = 0;
            while i < touches.len()
                invariant
                    i <= touches@.len(),
                    self.all() == touches@,
                    found@ == window_touches(
                        touches@,
                        self.include_ended_touches,
                        window,
                        i as int,
                    ),
                decreases touches@.len() - i,
            {
                let touch = touches[i];
                if touch_visible_for_event(&touch, self.include_ended_touches) && touch.window
                    == window {
                    found.push(touch.id);
                }
                i = i + 1;
            }
        }
        found
    }

    /// Recognizers are shown the same touches as anybody.
    pub fn touches_for_gesture_recognizer(&self) -> (touches: Option<Vec<ObjectId>>)
        ensures
            match touches {
                Some(touches) => self.touches is Some && touches@ == visible_touches(
                    self.all(),
                    self.include_ended_touches,
                    self.all().len() as int,
                ),
                None => self.touches is None,
            },
    {
        self.all_touches()
    }

    pub fn event_type(&self) -> (event_type: u32)
        ensures
            event_type == UI_EVENT_TYPE_TOUCHES,
    {
        UI_EVENT_TYPE_TOUCHES
    }

    pub fn subtype(&self) -> (subtype: i32)
        ensures
            subtype == UI_EVENT_SUBTYPE_NONE,
    {
        UI_EVENT_SUBTYPE_NONE
    }
}

proof fn lemma_first_view_touch(
    touches: Seq<Touch>,
    ended_too: bool,
    view: u32,
    few: int,
    many: int,
)
    requires
        few <= many,
    ensures
        ({
            let a = view_touches(touches, ended_too, view, few);
            let b = view_touches(touches, ended_too, view, many);
            a.len() <= b.len() && b.take(a.len() as int) == a
        }),
    decreases many - few,
{
    let a = view_touches(touches, ended_too, view, few);
    let b = view_touches(touches, ended_too, view, many);
    if few < many {
        lemma_first_view_touch(touches, ended_too, view, few, many - 1);
        let c = view_touches(touches, ended_too, view, many - 1);
        if many > 0 {
            assert(b.take(a.len() as int) =~= c.take(a.len() as int));
        } else {
            assert(b.take(a.len() as int) =~= a);
        }
    } else {
        assert(b.take(a.len() as int) =~= a);
    }
}

fn new_event_with_policy(
    touches: Option<Vec<Touch>>,
    include_ended_touches: bool,
    timestamp: u64,
) -> (event: UIEventHostObject)
    ensures
        event == (UIEventHostObject { touches, timestamp, include_ended_touches }),
{
    UIEventHostObject { touches, timestamp, include_ended_touches }
}

/// Create an event with a set of active touches.
/// Ended/cancelled touches are filtered if the event is retained and queried
/// later.
pub fn new_event(touches: Option<Vec<Touch>>, timestamp: u64) -> (event: UIEventHostObject)
    ensures
        event == (UIEventHostObject { touches, timestamp, include_ended_touches: false }),
{
    new_event_with_policy(touches, false, timestamp)
}

/// For use while dispatching `touchesEnded:` or `touchesCancelled:`. The ended
/// touch must still be visible during that dispatch so that games can release
/// dragged objects.
pub fn new_event_including_ended(
    touches: Option<Vec<Touch>>,
    timestamp: u64,
) -> (event: UIEventHostObject)
    ensures
        event == (UIEventHostObject { touches, timestamp, include_ended_touches: true }),
{
    new_event_with_policy(touches, true, timestamp)
}

/// An event that is kept shows no touch that has ended. While the end of a
/// touch is dispatched, the event shows every touch.
pub proof fn ended_touches_are_hidden_later(touches: Seq<Touch>, id: u32, count: int)
    requires
        0 <= count <= touches.len(),
    ensures
        visible_touches(touches, false, count).contains(id) ==> exists|i: int|
            0 <= i < count && (#[trigger] touches[i]).id == id && !touches[i].ended,
        forall|i: int|
            0 <= i < count && (#[trigger] touches[i]).id != 0 ==> visible_touches(
                touches,
                true,
                count,
            ).contains(touches[i].id),
    decreases count,
{
    if count > 0 {
        ended_touches_are_hidden_later(touches, id, count - 1);
        let last = touches[count - 1];
        let shown = visible_touches(touches, false, count - 1);
        let now = visible_touches(touches, false, count);
        if now.contains(id) && !shown.contains(id) {
            let k = choose|k: int| 0 <= k < now.len() && now[k] == id;
            if k < shown.len() {
                assert(shown[k] == id);
            }
            assert(last.id == id);
        }
        let rest = visible_touches(touches, true, count - 1);
        let all = visible_touches(touches, true, count);
        assert forall|i: int| 0 <= i < count && (#[trigger] touches[i]).id != 0 implies all.contains(
            touches[i].id,
        ) by {
            if i < count - 1 {
                assert(rest.contains(touches[i].id));
                let k = choose|k: int| 0 <= k < rest.len() && rest[k] == touches[i].id;
                assert(all[k] == touches[i].id);
            } else {
                assert(all[rest.len() as int] == last.id);
            }
        }
    }
}

} // verus!
