# agentemac

A small agent that reports the hostname and the MAC/IPv4 addresses of the
machine over HTTP (`http://127.0.0.1:6060/mac`, with CORS headers for browser
callers), and installs itself as a system service (systemd on Unix, the
service control manager on Windows).

- `src/` is the library, verified with Verus:
  - `text` — whitespace, trimming, lines and words over characters, and the
    byte/string conversions;
  - `report` — the reported interface type and its JSON rendering;
  - `json` — a reading of that JSON, and the proof that it reads back to
    the interfaces' fields;
  - `http` — routing of a raw request and the exact answers, with the
    `Content-Length` computed from the body's UTF-8 length;
  - `hostname` — choosing the hostname from the hostname files, the
    `hostname` command and the environment;
  - `interfaces` — MAC addresses from sysfs, the IPv4 address from
    `ip addr show`, the Unix interface list, the adapter listing of PowerShell;
  - `port` — the process ids listed by `lsof`;
  - `setup` — start-up mode, installer steps, service texts and the bounded
    wait for a service to stop.
- `app/` is the program around it: sockets, files, processes, environment.
  Started under the name `uninstall`, it runs the standalone uninstaller.
- `tests/` runs the library on concrete inputs.
