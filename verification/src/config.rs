//! Configuration helpers: the beacon's tunables, the locations of the
//! node's configuration files, and a typed handle pairing a configuration
//! value with the path it persists at.
//!
//! Everything here computes names and paths from plain values; reading the
//! environment, the home directory and the file system belongs to the
//! embedding.

use vstd::prelude::*;
use vstd::string::StringExecFns;

verus! {

/// The beacon's configuration surface. None of these are renegotiable at
/// runtime; changing them means rebuilding the actor.
pub struct RandomnessConfig {
    /// Bound on the in-flight command backlog of the actor's mailbox.
    pub mailbox_capacity: u64,
    /// Per-peer inbound rate limit for signature messages, per second;
    /// `None` leaves inbound traffic unthrottled.
    pub send_signatures_rate_limit: Option<u64>,
    /// Bound on how far above the completion watermark a round may be
    /// accumulated.
    pub max_pending_rounds: u64,
    /// Bound on the number of partial signatures one inbound message may
    /// carry.
    pub max_partial_sigs_per_message: u64,
}

impl Default for RandomnessConfig {
    /// The default tuning: a generous mailbox, no rate limit, and moderate
    /// bounds on retained rounds and message size.
    fn default() -> (c: RandomnessConfig)
        ensures
            c == (RandomnessConfig {
                mailbox_capacity: 1024u64,
                send_signatures_rate_limit: None::<u64>,
                max_pending_rounds: 100u64,
                max_partial_sigs_per_message: 1024u64,
            }),
    {
        RandomnessConfig {
            mailbox_capacity: 1024,
            send_signatures_rate_limit: None,
            max_pending_rounds: 100,
            max_partial_sigs_per_message: 1024,
        }
    }
}

/// Why a configuration location could not be determined.
#[derive(Clone, Copy, Debug, PartialEq, Eq, Structural)]
pub enum ConfigError {
    /// Neither an override nor a home directory is available.
    HomeDirectoryUnavailable,
}

/// The decimal digit character for one digit value.
pub open spec fn digit_char(d: int) -> char {
    if d == 0 {
        '0'
    } else if d == 1 {
        '1'
    } else if d == 2 {
        '2'
    } else if d == 3 {
        '3'
    } else if d == 4 {
        '4'
    } else if d == 5 {
        '5'
    } else if d == 6 {
        '6'
    } else if d == 7 {
        '7'
    } else if d == 8 {
        '8'
    } else {
        '9'
    }
}

/// The decimal rendering of a number, most significant digit first.
pub open spec fn decimal_chars(x: nat) -> Seq<char>
    decreases x,
{
    if x < 10 {
        seq![digit_char(x as int)]
    } else {
        decimal_chars(x / 10) + seq![digit_char((x % 10) as int)]
    }
}

/// The characters of collected low-order digits, read back most significant
/// first.
spec fn rev_chars(ds: Seq<u64>) -> Seq<char>
    decreases ds.len(),
{
    if ds.len() == 0 {
        Seq::empty()
    } else {
        seq![digit_char(ds.last() as int)] + rev_chars(ds.drop_last())
    }
}

/// Reading collected digits back reverses their order.
proof fn lemma_rev_chars_index(ds: Seq<u64>, i: int)
    requires
        0 <= i < ds.len(),
    ensures
        rev_chars(ds).len() == ds.len(),
        rev_chars(ds)[i] == digit_char(ds[ds.len() - 1 - i] as int),
    decreases ds.len(),
{
    lemma_rev_chars_len(ds);
    if i > 0 {
        lemma_rev_chars_index(ds.drop_last(), i - 1);
    }
}

/// Reading digits back keeps their number.
proof fn lemma_rev_chars_len(ds: Seq<u64>)
    ensures
        rev_chars(ds).len() == ds.len(),
    decreases ds.len(),
{
    if ds.len() > 0 {
        lemma_rev_chars_len(ds.drop_last());
    }
}

/// The string slice for one decimal digit.
fn digit_str(d: u64) -> (r: &'static str)
    requires
        d < 10,
    ensures
        r@ == seq![digit_char(d as int)],
{
    proof {
        reveal_strlit("0");
        reveal_strlit("1");
        reveal_strlit("2");
        reveal_strlit("3");
        reveal_strlit("4");
        reveal_strlit("5");
        reveal_strlit("6");
        reveal_strlit("7");
        reveal_strlit("8");
        reveal_strlit("9");
    }
    let r = match d {
        0 => "0",
        1 => "1",
        2 => "2",
        3 => "3",
        4 => "4",
        5 => "5",
        6 => "6",
        7 => "7",
        8 => "8",
        _ => "9",
    };
    proof {
        assert(r@ =~= seq![digit_char(d as int)]);
    }
    r
}

/// Renders a number in decimal.
pub fn u64_to_decimal(x: u64) -> (r: String)
    ensures
        r@ == decimal_chars(x as nat),
{
    let mut ds: Vec<u64> = Vec::new();
    let mut v = x;
    loop
        invariant_except_break
            v == x ==> ds@.len() == 0,
            v == 0 ==> ds@.len() == 0,
        invariant
            v <= x,
            v > 0 || ds@.len() > 0 || x == 0,
            forall|p: int| 0 <= p < ds@.len() ==> ds@[p] < 10,
            if v > 0 {
                decimal_chars(x as nat) == decimal_chars(v as nat) + rev_chars(ds@)
            } else {
                ds@.len() > 0 ==> decimal_chars(x as nat) == rev_chars(ds@)
            },
        ensures
            v == 0,
            decimal_chars(x as nat) == rev_chars(ds@),
            ds@.len() >= 1,
        decreases v + if ds@.len() == 0 { 1int } else { 0int },
    {
        let ghost old_ds = ds@;
        let ghost old_v = v;
        ds.push(v % 10);
        v = v / 10;
        proof {
            assert(ds@.drop_last() =~= old_ds);
            assert(ds@.last() == old_v % 10);
            if v > 0 {
                assert(decimal_chars(old_v as nat) == decimal_chars(v as nat) + seq![
                    digit_char((old_v % 10) as int),
                ]);
                assert(decimal_chars(v as nat) + rev_chars(ds@) =~= decimal_chars(v as nat)
                    + seq![digit_char((old_v % 10) as int)] + rev_chars(old_ds));
                if old_v == x {
                    assert(rev_chars(old_ds) =~= Seq::<char>::empty());
                    assert(decimal_chars(x as nat) =~= decimal_chars(v as nat) + rev_chars(ds@));
                } else {
                    assert(decimal_chars(x as nat) == decimal_chars(old_v as nat) + rev_chars(
                        old_ds,
                    ));
                    assert(decimal_chars(x as nat) =~= decimal_chars(v as nat) + rev_chars(ds@));
                }
            } else {
                assert(old_v < 10);
                assert(decimal_chars(old_v as nat) == seq![digit_char(old_v as int)]);
                assert(old_v % 10 == old_v);
                if old_v != x {
                    assert(old_v > 0);
                }
                if old_v == x {
                    assert(rev_chars(old_ds) =~= Seq::<char>::empty());
                    assert(decimal_chars(x as nat) =~= rev_chars(ds@));
                } else {
                    assert(decimal_chars(x as nat) == decimal_chars(old_v as nat) + rev_chars(
                        old_ds,
                    ));
                    assert(decimal_chars(x as nat) =~= rev_chars(ds@));
                }
            }
        }
        if v == 0 {
            break;
        }
    }
    let mut s = String::new();
    let mut i: usize = 0;
    proof {
        lemma_rev_chars_len(ds@);
    }
    while i < ds.len()
        invariant
            0 <= i <= ds@.len(),
            rev_chars(ds@).len() == ds@.len(),
            forall|p: int| 0 <= p < ds@.len() ==> ds@[p] < 10,
            s@ == rev_chars(ds@).subrange(0, i as int),
        decreases ds@.len() - i,
    {
        let d = ds[ds.len() - 1 - i];
        proof {
            lemma_rev_chars_index(ds@, i as int);
        }
        s.append(digit_str(d));
        i = i + 1;
        proof {
            assert(s@ =~= rev_chars(ds@).subrange(0, i as int));
        }
    }
    proof {
        assert(rev_chars(ds@).subrange(0, rev_chars(ds@).len() as int) =~= rev_chars(ds@));
    }
    s
}

/// The view of the network address parts the configuration file names are
/// derived from: a host name and a port, either of which an address may
/// lack.
pub struct Multiaddr {
    pub hostname: Option<String>,
    pub port: Option<u16>,
}

/// The file name derived from an address: `<hostname>-<port>.yaml`.
pub open spec fn hostname_port_filename(hostname: Seq<char>, port: u16) -> Seq<char> {
    hostname + seq!['-'] + decimal_chars(port as nat) + seq!['.', 'y', 'a', 'm', 'l']
}

/// Derives a configuration file name from an address' host name and port;
/// an address lacking either has no derived name.
pub fn multiaddr_to_filename(address: Multiaddr) -> (r: Option<String>)
    ensures
        r is Some <==> address.hostname is Some && address.port is Some,
        r matches Some(s) ==> (address.hostname matches Some(h) && address.port matches Some(p)
            && s@ == hostname_port_filename(h@, p)),
{
    match (address.hostname, address.port) {
        (Some(h), Some(p)) => {
            proof {
                reveal_strlit("-");
                reveal_strlit(".yaml");
            }
            let mut s = h;
            s.append("-");
            let port_str = u64_to_decimal(p as u64);
            s.append(port_str.as_str());
            s.append(".yaml");
            proof {
                assert(s@ =~= hostname_port_filename(
                    (address.hostname->Some_0)@,
                    address.port->Some_0,
                ));
            }
            Some(s)
        },
        _ => None,
    }
}

/// The fallback file name for a validator's configuration, by its position.
pub open spec fn fallback_filename(prefix: Seq<char>, i: nat) -> Seq<char> {
    prefix + decimal_chars(i) + seq!['.', 'y', 'a', 'm', 'l']
}

/// The configuration file name for a validator: derived from its network
/// address when possible, else `validator-config-<i>.yaml`.
pub fn validator_config_file(address: Multiaddr, i: usize) -> (r: String)
    ensures
        address.hostname matches Some(h) ==> (address.port matches Some(p) ==> r@
            == hostname_port_filename(h@, p)),
        !(address.hostname is Some && address.port is Some) ==> r@ == fallback_filename(
            "validator-config-"@,
            i as nat,
        ),
{
    match multiaddr_to_filename(address) {
        Some(s) => s,
        None => {
            proof {
                reveal_strlit("validator-config-");
                reveal_strlit(".yaml");
            }
            let mut s = String::from_str("validator-config-");
            let n = u64_to_decimal(i as u64);
            s.append(n.as_str());
            s.append(".yaml");
            proof {
                assert(s@ =~= fallback_filename("validator-config-"@, i as nat));
            }
            s
        },
    }
}

/// The configuration file name for a state-sync fullnode: derived from its
/// network address when possible, else `ssfn-config-<i>.yaml`.
pub fn ssfn_config_file(address: Multiaddr, i: usize) -> (r: String)
    ensures
        address.hostname matches Some(h) ==> (address.port matches Some(p) ==> r@
            == hostname_port_filename(h@, p)),
        !(address.hostname is Some && address.port is Some) ==> r@ == fallback_filename(
            "ssfn-config-"@,
            i as nat,
        ),
{
    match multiaddr_to_filename(address) {
        Some(s) => s,
        None => {
            proof {
                reveal_strlit("ssfn-config-");
                reveal_strlit(".yaml");
            }
            let mut s = String::from_str("ssfn-config-");
            let n = u64_to_decimal(i as u64);
            s.append(n.as_str());
            s.append(".yaml");
            proof {
                assert(s@ =~= fallback_filename("ssfn-config-"@, i as nat));
            }
            s
        },
    }
}

/// The node's configuration directory: an environment override verbatim, or
/// `.mysocial/mysocial_config` under the home directory. With neither
/// available no directory exists. Reading the environment and creating the
/// directory are the embedding's work.
pub fn mysocial_config_dir(env_override: Option<String>, home: Option<String>) -> (r: Result<
    String,
    ConfigError,
>)
    ensures
        r is Err <==> env_override is None && home is None,
        env_override matches Some(dir) ==> r == Result::<String, ConfigError>::Ok(dir),
        env_override is None ==> (home matches Some(h) ==> (r matches Ok(d) && d@ == h@
            + "/.mysocial/mysocial_config"@)),
        r matches Err(e) ==> e == ConfigError::HomeDirectoryUnavailable,
{
    match env_override {
        Some(dir) => Ok(dir),
        None => match home {
            Some(h) => Ok(h.concat("/.mysocial/mysocial_config")),
            None => Err(ConfigError::HomeDirectoryUnavailable),
        },
    }
}

/// The configuration directory under its compatibility name.
pub fn sui_config_dir(env_override: Option<String>, home: Option<String>) -> (r: Result<
    String,
    ConfigError,
>)
    ensures
        r is Err <==> env_override is None && home is None,
        env_override matches Some(dir) ==> r == Result::<String, ConfigError>::Ok(dir),
        env_override is None ==> (home matches Some(h) ==> (r matches Ok(d) && d@ == h@
            + "/.mysocial/mysocial_config"@)),
        r matches Err(e) ==> e == ConfigError::HomeDirectoryUnavailable,
{
    mysocial_config_dir(env_override, home)
}

/// The location of the genesis blob: under an explicitly given directory,
/// else under the environment override, else under the default directory in
/// the home; with none of them there is no location to check. The file
/// system probe is the embedding's work.
pub fn genesis_blob_path(
    config_dir: Option<String>,
    env_override: Option<String>,
    home: Option<String>,
) -> (r: Option<String>)
    ensures
        r is None <==> config_dir is None && env_override is None && home is None,
        config_dir matches Some(d) ==> (r matches Some(p) && p@ == d@ + "/genesis.blob"@),
        config_dir is None ==> (env_override matches Some(d) ==> (r matches Some(p) && p@ == d@
            + "/genesis.blob"@)),
        config_dir is None && env_override is None ==> (home matches Some(h) ==> (r matches Some(
            p,
        ) && p@ == h@ + "/.mysocial/mysocial_config/genesis.blob"@)),
{
    match config_dir {
        Some(d) => Some(d.concat("/genesis.blob")),
        None => match env_override {
            Some(d) => Some(d.concat("/genesis.blob")),
            None => match home {
                Some(h) => Some(h.concat("/.mysocial/mysocial_config/genesis.blob")),
                None => None,
            },
        },
    }
}

/// A configuration value paired with the file path it persists at. Loading
/// and saving the file are the embedding's work; this handle keeps the
/// pairing honest.
pub struct PersistedConfig<C> {
    inner: C,
    path: String,
}

impl<C> PersistedConfig<C> {
    /// The held configuration value.
    pub closed spec fn spec_inner(&self) -> C {
        self.inner
    }

    /// The held path.
    pub closed spec fn spec_path(&self) -> String {
        self.path
    }

    /// Pairs a configuration value with the path it persists at.
    pub fn persisted(inner: C, path: String) -> (r: PersistedConfig<C>)
        ensures
            r.spec_inner() == inner,
            r.spec_path() == path,
    {
        PersistedConfig { inner, path }
    }

    /// Takes the configuration value back out.
    pub fn into_inner(self) -> (c: C)
        ensures
            c == self.spec_inner(),
    {
        self.inner
    }

    /// The path this configuration persists at.
    pub fn path(&self) -> (p: &String)
        ensures
            p == self.spec_path(),
    {
        &self.path
    }

    /// A reference to the held configuration value.
    pub fn get(&self) -> (c: &C)
        ensures
            c == self.spec_inner(),
    {
        &self.inner
    }
}

} // verus!
