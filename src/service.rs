//! The HTTP server that serves the engine: built with Rocket, with the
//! service's routes mounted at the root path.

use vstd::prelude::*;

verus! {

#[verifier::external_type_specification]
#[verifier::external_body]
pub struct ExRoute(rocket::Route);

/// A Rocket server in its build phase. Verus cannot declare `rocket::Rocket`
/// (its phase bound lives in a private module), so the server is held here,
/// opaque to the proofs.
#[verifier::external_body]
pub struct Server(pub rocket::Rocket<rocket::Build>);

/// Relies on `rocket::build`: a server in its build phase, configured from
/// the default providers (`Rocket.toml` and the environment).
#[verifier::external_body]
fn build_server() -> Server {
    Server(rocket::build())
}

/// Relies on `Rocket::mount`: adds `routes` under the path `base`. It panics
/// when `base` is not a valid origin URI, so only the root path is admitted.
#[verifier::external_body]
fn mount_routes(server: Server, base: &'static str, routes: Vec<rocket::Route>) -> Server
    requires
        base@ == "/"@,
{
    Server(server.0.mount(base, routes))
}

/// Builds the server with `routes` mounted at the root path.
pub fn rocket(routes: Vec<rocket::Route>) -> Server {
    let base = "/";
    proof {
        reveal_strlit("/");
    }
    mount_routes(build_server(), base, routes)
}

} // verus!
