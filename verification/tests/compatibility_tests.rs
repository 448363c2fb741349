// Verifies that the core library can be imported and its central type
// constructed; any issue with the crate's module structure fails here.

use mysocial_network::actor::ActorState;
use mysocial_network::metrics::Metrics;

#[test]
fn test_mysocial_core_can_be_imported() {
    let _core = ActorState::new(Metrics::disabled(), 100);
}
