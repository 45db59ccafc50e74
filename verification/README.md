# ufbx

A verified library for reading and writing FBX scene files and OBJ meshes,
written in Verus.

- `src/` holds the library: the binary and ASCII FBX parsers and writers,
  the OBJ and MTL parsers, mesh topology and subdivision layouts, scene
  building, the allocators and the decimal-to-double conversion. Every
  function carries a contract that Verus proves.
- `app/` holds what stays outside the proofs: file I/O, floating-point
  evaluation (NURBS tessellation, subdivision averaging, OBJ scene values)
  and error types with `Display`.
- `tests/` exercises the library on concrete inputs.
