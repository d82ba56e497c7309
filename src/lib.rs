//! A push-based reactive streams core: producers push items and one terminal
//! signal to guarded consumers, through operators whose decisions are state
//! machines with exact contracts.

pub mod combine;
pub mod factory;
pub mod filter;
pub mod filter_map;
pub mod flat_map;
pub mod fold;
pub mod functions;
pub mod map;
pub mod map_error;
pub mod merge;
pub mod multicast;
pub mod observable;
pub mod observer;
pub mod registry;
pub mod scheduler;
pub mod signal;
pub mod skip;
pub mod subject;
pub mod subscription;
pub mod take;
pub mod tap;
pub mod thread;
pub mod timer;

pub use combine::{combine, Arrival, CombineObservable, Latest};
pub use filter::{filter, FilterObservable};
pub use filter_map::{filter_map, FilterMapObservable};
pub use flat_map::{flat_map, FlatMapObservable, InnerEvent, InnerSubscriptions};
pub use factory::{create, empty, from_iter, from_option, from_result, from_value, never, subject, throw};
pub use fold::{fold, FoldObservable};
pub use map::MapObservable;
pub use map_error::{map_err, MapErrorObservable};
pub use merge::{merge, Completions, MergeObservable, Source};
pub use multicast::{Multicast, ShareEvent};
pub use observable::BaseObservable;
pub use observer::{BaseObserver, ObserverId};
pub use registry::Registry;
pub use scheduler::Scheduler;
pub use signal::Signal;
pub use skip::{skip, skip_admit, SkipObservable};
pub use subject::Subject;
pub use subscription::Subscription;
pub use take::{take, take_admit, TakeObservable};
pub use tap::{tap, TapObservable};
pub use thread::{PendingSubscription, ThreadObservable};
pub use timer::Interval;
