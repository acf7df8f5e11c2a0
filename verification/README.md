# cczuvpnproto

A client for the WebVPN tunnel of CCZU. Which step it takes next, and what becomes of a step
that fails, stands in a library that is verified with Verus; what it does to the network and to
the system stands around it.

## Library

`src/` holds the decisions, each with a contract that Verus proves:

- `net`, `address_laws`, `numeral`, `text`, `sorted`: addresses, their texts and the way back,
  numbers, text, and ordered sets
- `auth`: the login form, what the answer of the portal means, and the course of an
  authorization
- `cli::routes`, `cli::plan`, `cli::route_laws`: what split-tunnel rules stand for, and which
  routes a tunnel gets
- `cli::commands`, `cli::linux`, `cli::cleanup`, `cli::bootstrap`, `cli::windows`: the system
  commands that put a configuration in place and remove it, one step at a time
- `cli::credentials`, `cli::keyring`: which account is used, and the keyring it may come from
- `cli::device`, `cli::run`: the life of the tunnel device and the course of the program
- `vpn::service`, `vpn::start`, `vpn::actor`: the session of the service, how it is started,
  and how it is served
- `failure`, `types`: what the user is told, and shared records

Where something has to be done between two decisions, the library is a state machine: it names
the next step, and is told what became of it. Laws that hold of every course of events are
public proof functions beside the machine.

The library trusts `aes` and `cbc` for encryption, `base64`, `rand`, and a few functions of
`std`; each such place says what it relies on.

## Client

`app/` runs the steps: HTTP with the portal, TLS with the proxy, the tunnel device, system
commands, the keyring and the console. It takes the HTTP client and the frames of the proxy as
the traits `Portal` and `Wire`.

## Tests

`tests/` runs the library on concrete values, with the real crates behind it.
