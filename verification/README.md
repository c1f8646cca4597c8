# rfshare

Encrypted file sharing between devices, on the local network or through a relay.

The library in `src/` holds what the program decides and computes, with its contracts proved by
Verus. The program around it is in `app/`: the window, sockets, threads and files.

## The library

| Module | What it holds |
| --- | --- |
| `text`, `numbers`, `bytes`, `textmap`, `paths`, `clock` | text, numbers, little-endian bytes, maps from text, paths, the calendar |
| `crypto` | key agreement, keys, encrypted chunks |
| `transfer`, `offer`, `receiver`, `sender`, `exchange` | the transfer protocol, and what holds of a whole transfer |
| `peers`, `book` | the search for devices, and the list of those that were found |
| `remote`, `relay`, `link`, `monitor` | the way to the relay, the relay itself, the state of the connection, changes of this device's address |
| `queue`, `inbox`, `sync` | files to send, files received, folders kept in step |
| `history`, `prefs`, `license`, `update` | the files the program keeps, licence keys, releases |
| `settings`, `app`, `view`, `icon`, `utils` | the settings, the application's state, what its pages show |

Functions of the library do no input or output. Where something is to be done outside, a result says
so: [`receiver::Receiver`](src/receiver.rs) says how many bytes it wants next,
[`relay::Relay`](src/relay.rs) whom to pair, [`app::App`](src/app.rs) what to start.

Paths are texts, read by the rules of the system they belong to: functions that read or make a path
take a [`paths::Style`](src/paths.rs). Of the name of an offered file only the last part is used, so
what is received stays in the directory it is saved to.

What the cryptographic crates compute is named and not defined: contracts speak of `sha256`, `x25519`,
`gcm_seal` and `gcm_open`.

## The program

Without arguments the window opens. `rfshare relay 0.0.0.0:9000` runs the relay server.

| Port | Protocol | Purpose |
| --- | --- | --- |
| 44444 | UDP | search for devices |
| 44445 | TCP | file transfer |

On Linux the GTK 3 libraries are needed. On Windows, `winreg = "0.55"` has to be added to the
dependencies; it builds nowhere else. The picture of the program is read from `assets/icon.png`
beside it.

Preferences, history and licence are kept in the directory `rfshare` among the user's settings, as
`prefs.json`, `history.csv` and `license`.
