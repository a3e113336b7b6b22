//! Instrument control without a VISA dependency: byte transports, SCPI framing and
//! sessions with retries, IEEE 488.2 common commands, discovery and classification,
//! and scripted mock fixtures.
//!
//! Use [`Transport`] for byte I/O, [`ScpiSession`] for SCPI framing, and
//! [`ScriptedFixture`] for deterministic mocks.
pub mod kind;
pub mod lock;
pub mod text;
pub mod address;
pub mod connect;
pub mod error;
pub mod identity;
pub mod scpi;
pub mod timing;
pub mod transport;
pub mod classifier;
pub mod registry;
pub mod diagnostics;
pub mod mock;
pub mod ieee4882;
pub mod session;
pub mod probe_policy;
pub mod enumerator;
pub mod recording;
pub mod backend;

pub use address::{AddressParts, InterfaceKind, ResourceAddress};
pub use classifier::{
    classify_deep, classify_from_address, classify_from_identity, classify_from_transport_hint,
    classify_with_policy, merge_classifications, ClassifiedKind, ClassifySource, DiscoveredDevice,
};
pub use connect::{AccessMode, ConnectOptions};
pub use diagnostics::{CommsEvent, CommsEventKind, CommsObserver, DeviceHealth, Diagnostics};
pub use enumerator::{RawResource, ResourceEnumerator, StaticEnumerator};
pub use error::{Error, Result, TransportError};
pub use identity::{DeviceId, DeviceIdentity, Idn};
pub use ieee4882::Ieee4882;
pub use kind::InstrumentKind;
pub use mock::{MockTransport, ScriptStep, ScriptedFixture, Transcript};
pub use probe_policy::ProbePolicy;
pub use recording::RecordingTransport;
pub use registry::ModelRegistry;
pub use scpi::ScpiSession;
pub use session::{InstrumentSession, SessionOpener, SessionPool};
pub use transport::{Transport, TransportIdentity};
