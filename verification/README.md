# SecureCrypt evaluation dashboard

SecureCrypt compares classical and post-quantum TLS key exchange: a
dashboard starts an external application as one server and many clients,
collects their handshake, transfer and resource measurements, and reports
the results of a day.

- `src/` is the library, verified with Verus: the dashboard session and
  its lifecycle decisions (`evaluation`, `lifecycle`), container and
  process plans (`containers`, `processes`), the in-memory store
  (`storage`), resource monitoring tallies (`monitor`), the grouping of
  results and their integer statistics (`results`, `results_laws`,
  `summaries`), report inputs (`report`, `formatting`), the application's
  own settings and downloads (`application`), traffic metrics
  (`user_application`), and text building (`text`, `text_order`).
- `tests/` exercises the library on concrete values.
- `app/` is the program around it: HTTP routes, PostgreSQL, Docker,
  process spawning, server-sent events, and the real-valued parts of the
  results (means, deviations, percentages) and of the report.
