//! Core library types.
use vstd::prelude::*;

verus! {

/// Day of the week.
#[derive(Clone, Copy, Debug, PartialEq, Eq, Hash, Structural)]
pub enum Weekday {
    Mon,
    Tue,
    Wed,
    Thu,
    Fri,
    Sat,
    Sun,
}

impl Weekday {
    /// Position in the week, starting from 0 for Monday.
    pub open spec fn index(self) -> int {
        match self {
            Weekday::Mon => 0,
            Weekday::Tue => 1,
            Weekday::Wed => 2,
            Weekday::Thu => 3,
            Weekday::Fri => 4,
            Weekday::Sat => 5,
            Weekday::Sun => 6,
        }
    }

    /// Position in the week, starting from 0 for Monday.
    pub fn num_from_monday0(&self) -> (r: u8)
        ensures
            r as int == self.index(),
    {
        match self {
            Weekday::Mon => 0,
            Weekday::Tue => 1,
            Weekday::Wed => 2,
            Weekday::Thu => 3,
            Weekday::Fri => 4,
            Weekday::Sat => 5,
            Weekday::Sun => 6,
        }
    }

    /// The day of the week at position `i` (0 for Monday).
    pub fn from_monday0(i: u8) -> (r: Weekday)
        requires
            i < 7,
        ensures
            r.index() == i as int,
    {
        if i == 0 {
            Weekday::Mon
        } else if i == 1 {
            Weekday::Tue
        } else if i == 2 {
            Weekday::Wed
        } else if i == 3 {
            Weekday::Thu
        } else if i == 4 {
            Weekday::Fri
        } else if i == 5 {
            Weekday::Sat
        } else {
            Weekday::Sun
        }
    }
}


/// An instant, as whole seconds since the Unix epoch (UTC).
pub type OccDate = i64;

/// A civil date, as its day number (1 January of year 1 is day 1).
pub type Day = i32;

/// Allowed types for [items](Item).
#[derive(Clone, Copy, Debug, PartialEq, Eq, Hash, Structural)]
pub enum ItemType {
    /// Occurrences are fixed points in time according to the schedule.
    Event,
    /// Occurrences cover fixed completion periods, with the goal of reaching
    /// the target completion amount averaged over these periods.
    ProgressTask,
    /// Occurrences have a deadline based on the previous completion.
    DeadlineTask,
}

/// Describes the days an event occurs on.
#[derive(Clone, Debug, PartialEq, Eq, Hash)]
pub enum DayFilter {
    /// Once every `days_apart` days.  With `days_apart` 0 the first day is
    /// the only one.
    Day { days_apart: u32 },
    /// Once every `weeks_apart` weeks, always falling on the same `day`.  With
    /// `weeks_apart` 0 the first such day is the only one.
    Dow { day: Weekday, weeks_apart: u32 },
    /// On every one of the specified `days` of the week.
    Dows { days: Vec<Weekday> },
    /// On every one of the specified `days` of the month (1 to 31), every
    /// `months_apart` months.  A day past the end of a month stands for the
    /// month's last day.
    Dom { days: Vec<u8>, months_apart: u32 },
    /// On every one of the specified `weeks` occurrences in the month (1 for
    /// the first), of the day of the week `dow`, every `months_apart` months.
    /// For example, "every 2nd and 3rd Tuesday of every 6th month".
    Wom { dow: Weekday, weeks: Vec<u8>, months_apart: u32 },
    /// On day of the month `dom` of `month` (1 to 12), every `years_apart`
    /// years; the month's last day where `dom` does not exist.
    Doy { dom: u8, month: u8, years_apart: u32 },
    /// On the single date `dom`, `month`, `year` (negative years are BCE).
    Date { dom: u8, month: u8, year: i32 },
}

/// Schedule for events.
#[derive(Clone, Debug, PartialEq, Eq, Hash)]
pub struct EventSched {
    /// The first date the event occurs on.
    pub initial_day: Day,
    /// Describes the days the event occurs on.
    pub days: DayFilter,
    /// Time of day the event occurs at, as seconds after midnight (below
    /// 86400); midnight when absent.
    pub time: Option<u32>,
}

/// Schedule for progress tasks.
#[derive(Clone, Copy, Debug, PartialEq, Eq, Hash, Structural)]
pub enum ProgressTaskSched {
    /// Duration of `num` days.
    Days { num: u8 },
    /// Duration of `num` weeks, always starting on day of the week `start_day`.
    Weeks { num: u8, start_day: Weekday },
    /// Duration of `num` months, always starting on day of the month
    /// `start_day` (from 1).
    Months { num: u8, start_day: u8 },
    /// Duration of `num` years, always starting on day of the month `start_dom`
    /// (from 1) of month `start_month` (1 to 12).
    Years { num: u8, start_month: u8, start_dom: u8 },
}

/// Schedule for deadline tasks.
#[derive(Clone, Copy, Debug, PartialEq, Eq, Hash, Structural)]
pub struct DeadlineTaskSched {
    /// Time from completing the task to the next deadline, in seconds.
    pub duration: u64,
}

/// Schedule for an item.
///
/// Should match the [item type](ItemType), but there is nothing to enforce
/// this.
#[derive(Clone, Debug, PartialEq, Eq, Hash)]
pub enum Sched {
    Event(EventSched),
    ProgressTask(ProgressTaskSched),
    DeadlineTask(DeadlineTaskSched),
}

/// An event or task.
#[derive(Clone, Debug, PartialEq, Eq, Hash)]
pub struct Item {
    pub type_: ItemType,
    /// Whether the item is being tracked.
    pub active: bool,
    /// Used for [configuring](Config) groups of items.
    pub category: Option<String>,
    pub name: String,
    pub desc: Option<String>,
    pub sched: Sched,
}

/// Occurrence of an item.
///
/// This is the period of time across which a task is to be completed, or the
/// point in time for an instance of an event.
#[derive(Clone, Copy, Debug, PartialEq, Eq, Hash, Structural)]
pub struct Occ {
    /// Whether the occurrence is being tracked.
    pub active: bool,
    /// Start of the occurrence period.
    pub start: OccDate,
    /// End of the occurrence period.
    pub end: OccDate,
    /// For tasks, this is used to track progress.  Any non-zero value counts as
    /// 'completed' for tasks without a [configured](TaskCompletionConfig)
    /// target completion amount.
    pub task_completion_progress: u32,
}

/// Configuration that applies to progress tasks.
///
/// Also see [Config].
#[derive(Clone, Debug, PartialEq, Eq, Hash)]
pub struct TaskCompletionConfig {
    /// Target completion amount.
    pub total: Option<u32>,
    /// Display unit for completion value.
    pub unit: Option<String>,
    /// Excess completion from other occurrences can count towards this
    /// occurrence up to this far in the past, in seconds.
    pub excess_past: Option<u64>,
    /// Excess completion from other occurrences can count towards this
    /// occurrence up to this far in the future, in seconds.
    pub excess_future: Option<u64>,
}

/// Configuration for occurrences.
///
/// Via [ConfigId](crate::db::ConfigId), this can be applied to different
/// scopes, such as a specific occurrences, all occurrences for an item, or all
/// occurrences for all items of a specific type.
///
/// All values are optional.  Config applied at a more specific scope takes
/// precedence: for each field, the value is taken from the config with the
/// highest precedence which has a value.
#[derive(Clone, Debug, PartialEq, Eq, Hash)]
pub struct Config {
    /// How long before an occurrence's end alerts are due, in seconds.
    pub occ_alert: Option<u64>,
    /// Applies to progress tasks.
    pub task_completion_conf: TaskCompletionConfig,
}

/// [`Config`] with its strings as character sequences.
pub struct ConfigView {
    pub occ_alert: Option<u64>,
    pub total: Option<u32>,
    pub unit: Option<Seq<char>>,
    pub excess_past: Option<u64>,
    pub excess_future: Option<u64>,
}

impl View for Config {
    type V = ConfigView;

    open spec fn view(&self) -> ConfigView {
        let t = self.task_completion_conf;
        ConfigView {
            occ_alert: self.occ_alert,
            total: t.total,
            unit: match t.unit {
                Some(u) => Some(u@),
                None => None,
            },
            excess_past: t.excess_past,
            excess_future: t.excess_future,
        }
    }
}

} // verus!
