# amax_lib

The verified core of the AMAX usage dashboard, a tray application that watches an
AMAX account's quota and spend, alerts on low quota, fast burn and unusual daily
spend, and delivers alerts by system notification, MeoW push or SMTP mail.

- `src/` — the library, verified with Verus:
  - `error` — error classes of the commands and the classification of HTTP statuses;
  - `text` — trimming, lower-casing, decimal text, replacement and splitting over characters;
  - `crypto` — the hex form of protected credentials;
  - `settings` — how credentials and channel settings are stored and read back;
  - `alert` — alert rules, per-day de-duplication, the daily cap, rule switches;
  - `deliver` — channel availability, setting validation, reply classification,
    redaction of credentials and delivery accounting;
  - `login` — the session cookie of the site login;
  - `dates` — statistics ranges, per-day request counts and the usage-baseline window;
  - `usage` — per-day usage over a range and checked totals;
  - `schedule` — refresh back-off, the steps of an update check and the idle check
    for installing updates.
- `tests/` — tests of the library.
- `app/` — the desktop shell (Tauri commands, tray, SQLite, HTTP, SMTP, the
  platform's credential protection, and the money arithmetic in floating point).
