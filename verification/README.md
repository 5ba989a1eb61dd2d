# re_lidar_slam

LiDAR odometry and mapping: point clouds and inertial samples go in, a map of planar
surfaces and a log of poses come out.

* `src/` is the library. Its functions state what they return, and Verus proves it.
  Numbers are IEEE bit patterns (`float`); what adds, multiplies or decomposes them is a
  `Numerics` that the caller brings (`numerics`), and every result is stated over the
  functions that it computes.
* `app/` holds the programs: the mapper, the pairing of two sensors' recordings, the charts
  of a run, and the plane filter for finished maps. It brings the arithmetic of the machine,
  the files and the drawing.
* `tests/` runs the library on that arithmetic.

## The library

| Modules | What they do |
| --- | --- |
| `float`, `numerics`, `matrix6` | numbers, points, poses, and the arithmetic that is asked for |
| `voxel`, `cell`, `voxel_map`, `covariance`, `voxelization` | voxel keys, maps of voxels, downsampling |
| `sorting`, `random`, `ransac`, `plane`, `surface`, `classification` | planes of voxels and when they are judged |
| `world_update` | what new observations do to the map near known planes |
| `find_nearest_points`, `icp`, `tracking` | matching and alignment of a frame |
| `predict_pose_by_imu`, `lidar`, `frame`, `slam`, `types` | prediction, sensors, and a whole frame |
| `filter_config`, `layer_plane`, `plane_filter` | the filter for finished maps |
| `frame_matching`, `timing`, `charts`, `command_line`, `text` | recordings, times, charts, texts |
| `global_voxel_map` | a map of plane nodes |
